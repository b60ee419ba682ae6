//! The build helper's command line and the commands it runs.
use vstd::prelude::*;
use crate::entry::strings_view;
use vstd::string::StringExecFns;

verus! {

/// Builder helper for calnoto
#[derive(Debug, Clone, PartialEq, Eq)]
pub struct Cli {
    pub cmd: CliCommands,
}

#[derive(Debug, Clone, Copy, PartialEq, Eq)]
pub struct CmdBuildArgs {
    /// Build in debug mode
    pub debug: bool,
}

#[derive(Debug, Clone, Copy, PartialEq, Eq)]
pub enum CliCommands {
    /// Build the project
    Build(CmdBuildArgs),

    /// Build android APK
    BuildAndroid(CmdBuildArgs),

    /// Build for windows on linux
    BuildWindows(CmdBuildArgs),

    /// Run tests
    Test,

    /// Clean build artifacts
    Clean,
}

/// What the helper does for a command.
#[derive(Debug, Clone, Copy, PartialEq, Eq)]
pub enum Task {
    /// Configure (when needed) and build for the host
    Build { debug: bool },
    /// Configure (when needed) and build the android package
    BuildAndroid { debug: bool },
    /// Remove the build directories
    Clean,
    /// Not supported yet
    Unsupported,
}

/// The task for a command: building for the host, building for android and
/// cleaning are supported, the others are not.
pub fn task_for(cmd: &CliCommands) -> (t: Task)
    ensures
        t == match *cmd {
            CliCommands::Build(a) => Task::Build { debug: a.debug },
            CliCommands::BuildAndroid(a) => Task::BuildAndroid { debug: a.debug },
            CliCommands::Clean => Task::Clean,
            _ => Task::Unsupported,
        },
{
    match cmd {
        CliCommands::Build(a) => Task::Build { debug: a.debug },
        CliCommands::BuildAndroid(a) => Task::BuildAndroid { debug: a.debug },
        CliCommands::Clean => Task::Clean,
        _ => Task::Unsupported,
    }
}

/// The generator argument for cmake: none on windows (cmake picks its
/// default), Ninja when it is installed, else Unix makefiles.
pub open spec fn generator_spec(windows: bool, ninja_found: bool) -> Seq<char> {
    if windows {
        seq![]
    } else if ninja_found {
        "-GNinja"@
    } else {
        "-GUnix Makefiles"@
    }
}

pub fn generator_arg(windows: bool, ninja_found: bool) -> (r: String)
    ensures
        r@ == generator_spec(windows, ninja_found),
{
    if windows {
        // let cmake pick the default for windows
        String::new()
    } else if ninja_found {
        "-GNinja".to_owned()
    } else {
        "-GUnix Makefiles".to_owned()
    }
}

pub open spec fn build_type_spec(debug: bool) -> Seq<char> {
    if debug { "-DCMAKE_BUILD_TYPE=Debug"@ } else { "-DCMAKE_BUILD_TYPE=Release"@ }
}

/// The cmake argument that selects the build type.
pub fn build_type_arg(debug: bool) -> (r: String)
    ensures
        r@ == build_type_spec(debug),
{
    if debug {
        "-DCMAKE_BUILD_TYPE=Debug".to_owned()
    } else {
        "-DCMAKE_BUILD_TYPE=Release".to_owned()
    }
}

/// `debug` or `release`.
pub fn flavor(debug: bool) -> (r: String)
    ensures
        r@ == if debug { "debug"@ } else { "release"@ },
{
    if debug { "debug".to_owned() } else { "release".to_owned() }
}

/// The command that configures a build directory for the host.
pub fn configure_command(root: &str, build_dir: &str, generator: &str, debug: bool) -> (r: Vec<String>)
    ensures
        strings_view(r@) == seq!["cmake"@, "-S"@, root@, "-B"@, build_dir@, generator@, build_type_spec(debug)],
{
    let mut r: Vec<String> = Vec::new();
    r.push("cmake".to_owned());
    r.push("-S".to_owned());
    r.push(root.to_owned());
    r.push("-B".to_owned());
    r.push(build_dir.to_owned());
    r.push(generator.to_owned());
    r.push(build_type_arg(debug));
    assert(strings_view(r@) =~= seq!["cmake"@, "-S"@, root@, "-B"@, build_dir@, generator@, build_type_spec(debug)]);
    r
}

/// The command that configures a build directory for android with the
/// given `qt-cmake` and the android SDK and NDK.
pub fn android_configure_command(
    qt_cmake: &str,
    sdk_root: &str,
    ndk_root: &str,
    root: &str,
    build_dir: &str,
    generator: &str,
    debug: bool,
) -> (r: Vec<String>)
    ensures
        strings_view(r@) == seq![qt_cmake@, "-DANDROID_SDK_ROOT="@ + sdk_root@, "-DANDROID_NDK_ROOT="@ + ndk_root@,
            "-S"@, root@, "-B"@, build_dir@, generator@, build_type_spec(debug)],
{
    let mut r: Vec<String> = Vec::new();
    r.push(qt_cmake.to_owned());
    let mut sdk = "-DANDROID_SDK_ROOT=".to_owned();
    sdk.append(sdk_root);
    r.push(sdk);
    let mut ndk = "-DANDROID_NDK_ROOT=".to_owned();
    ndk.append(ndk_root);
    r.push(ndk);
    r.push("-S".to_owned());
    r.push(root.to_owned());
    r.push("-B".to_owned());
    r.push(build_dir.to_owned());
    r.push(generator.to_owned());
    r.push(build_type_arg(debug));
    assert(strings_view(r@) =~= seq![qt_cmake@, "-DANDROID_SDK_ROOT="@ + sdk_root@, "-DANDROID_NDK_ROOT="@ + ndk_root@,
        "-S"@, root@, "-B"@, build_dir@, generator@, build_type_spec(debug)]);
    r
}

/// The command that builds a configured build directory.
pub fn build_command(build_dir: &str) -> (r: Vec<String>)
    ensures
        strings_view(r@) == seq!["cmake"@, "--build"@, build_dir@],
{
    let mut r: Vec<String> = Vec::new();
    r.push("cmake".to_owned());
    r.push("--build".to_owned());
    r.push(build_dir.to_owned());
    assert(strings_view(r@) =~= seq!["cmake"@, "--build"@, build_dir@]);
    r
}

/// The commands of a build, in order: the configuration when the build
/// directory does not exist yet, then the build.
pub fn build_steps(dir_exists: bool, configure: Vec<String>, build: Vec<String>) -> (r: Vec<Vec<String>>)
    ensures
        r@ == if dir_exists { seq![build] } else { seq![configure, build] },
{
    let mut r: Vec<Vec<String>> = Vec::new();
    if !dir_exists {
        r.push(configure);
    }
    r.push(build);
    proof {
        if dir_exists {
            assert(r@ =~= seq![build]);
        } else {
            assert(r@ =~= seq![configure, build]);
        }
    }
    r
}

} // verus!
