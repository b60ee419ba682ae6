use icalendar_txt::xtask::{
    android_configure_command, build_command, build_steps, build_type_arg, configure_command, flavor, generator_arg,
    task_for, CliCommands, CmdBuildArgs, Task,
};

#[test]
fn generator_choice() {
    assert_eq!(generator_arg(true, true), "");
    assert_eq!(generator_arg(false, true), "-GNinja");
    assert_eq!(generator_arg(false, false), "-GUnix Makefiles");
}

#[test]
fn configure_and_build_commands() {
    assert_eq!(build_type_arg(true), "-DCMAKE_BUILD_TYPE=Debug");
    assert_eq!(flavor(false), "release");
    let c = configure_command("/src", "/src/build", "-GNinja", false);
    assert_eq!(c, vec!["cmake", "-S", "/src", "-B", "/src/build", "-GNinja", "-DCMAKE_BUILD_TYPE=Release"]);
    let a = android_configure_command("qt-cmake", "/sdk", "/ndk", "/src", "/src/build-android", "", true);
    assert_eq!(a, vec![
        "qt-cmake", "-DANDROID_SDK_ROOT=/sdk", "-DANDROID_NDK_ROOT=/ndk", "-S", "/src", "-B", "/src/build-android", "",
        "-DCMAKE_BUILD_TYPE=Debug",
    ]);
    let b = build_command("/src/build");
    assert_eq!(b, vec!["cmake", "--build", "/src/build"]);
    assert_eq!(build_steps(true, c.clone(), b.clone()), vec![b.clone()]);
    assert_eq!(build_steps(false, c.clone(), b.clone()), vec![c, b]);
}

#[test]
fn tasks_for_commands() {
    assert_eq!(task_for(&CliCommands::Build(CmdBuildArgs { debug: true })), Task::Build { debug: true });
    assert_eq!(task_for(&CliCommands::BuildAndroid(CmdBuildArgs { debug: false })), Task::BuildAndroid { debug: false });
    assert_eq!(task_for(&CliCommands::Clean), Task::Clean);
    assert_eq!(task_for(&CliCommands::Test), Task::Unsupported);
    assert_eq!(task_for(&CliCommands::BuildWindows(CmdBuildArgs { debug: true })), Task::Unsupported);
}
