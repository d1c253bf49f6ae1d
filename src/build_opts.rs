//! Options for compiling a guest program, and the build requests assembled
//! from them. Running the compiler is left to the caller.
use vstd::prelude::*;

verus! {

/// Compile options for a guest program.
#[derive(Clone, Debug)]
pub struct BuildArgs {
    /// Run compilation in a Docker container for reproducible builds.
    pub docker: bool,
    /// The image tag to use when building with Docker.
    pub tag: String,
    /// Features to activate.
    pub features: Vec<String>,
    /// Do not activate the `default` feature.
    pub no_default_features: bool,
    /// Ignore `rust-version` specification in packages.
    pub ignore_rust_version: bool,
    /// Assert that `Cargo.lock` will remain unchanged.
    pub locked: bool,
    /// Build only the specified binary.
    pub binary: String,
    /// ELF binary name.
    pub elf_name: String,
    /// Copy the compiled ELF to this directory.
    pub output_directory: String,
}

/// `a` holds the default compile options.
pub open spec fn is_default_args(a: BuildArgs) -> bool {
    &&& !a.docker
    &&& a.tag@ == "v1.1.0"@
    &&& a.features@.len() == 0
    &&& !a.no_default_features
    &&& !a.ignore_rust_version
    &&& !a.locked
    &&& a.binary@ == ""@
    &&& a.elf_name@ == ""@
    &&& a.output_directory@ == "elf"@
}

impl Default for BuildArgs {
    fn default() -> (r: Self)
        ensures
            is_default_args(r),
    {
        proof {
            reveal_strlit("v1.1.0");
            reveal_strlit("");
            reveal_strlit("elf");
        }
        BuildArgs {
            docker: false,
            tag: "v1.1.0".to_owned(),
            features: Vec::new(),
            ignore_rust_version: false,
            binary: "".to_owned(),
            elf_name: "".to_owned(),
            output_directory: "elf".to_owned(),
            locked: false,
            no_default_features: false,
        }
    }
}

/// Options used to compile a guest program from a build script.
#[derive(Clone, Debug)]
pub struct BuildScriptOpts {
    /// The compile options shared with the command line.
    pub args: BuildArgs,
    /// Suppress the warnings that the build script emits.
    pub quiet: bool,
}

impl Default for BuildScriptOpts {
    fn default() -> (r: Self)
        ensures
            is_default_args(r.args),
            !r.quiet,
    {
        BuildScriptOpts { args: BuildArgs::default(), quiet: false }
    }
}

/// A request to build the program in directory `path` with `opts`.
#[derive(Clone, Debug)]
pub struct BuildRequest {
    pub path: String,
    pub opts: BuildScriptOpts,
}

/// The request to build the program at `path` with the default options.
pub fn build_program(path: &str) -> (r: BuildRequest)
    ensures
        r.path@ == path@,
        is_default_args(r.opts.args),
        !r.opts.quiet,
{
    BuildRequest { path: path.to_owned(), opts: BuildScriptOpts::default() }
}

/// The request to build the program at `path` with the compile options
/// `args`, the other options at their defaults.
pub fn build_program_with_args(path: &str, args: BuildArgs) -> (r: BuildRequest)
    ensures
        r.path@ == path@,
        r.opts.args == args,
        !r.opts.quiet,
{
    BuildRequest { path: path.to_owned(), opts: BuildScriptOpts { args, quiet: false } }
}

/// The request to build the program at `path` with the options `opts`.
pub fn build_program_with(path: &str, opts: BuildScriptOpts) -> (r: BuildRequest)
    ensures
        r.path@ == path@,
        r.opts == opts,
{
    BuildRequest { path: path.to_owned(), opts }
}

} // verus!
