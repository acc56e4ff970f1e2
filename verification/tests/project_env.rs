use toolbelt::project_env::{
    child_path, command, envrc_text, footprint_name, generate_envrc_content, project_bin, project_name,
    Command,
};

fn args(v: &[&str]) -> Vec<String> {
    v.iter().map(|s| s.to_string()).collect()
}

#[test]
fn readme_commands() {
    assert_eq!(command(&args(&[])), Command::PrintEnvrc);
    assert_eq!(command(&args(&["init"])), Command::Init);
    assert_eq!(command(&args(&["reinit"])), Command::Reinit);
    assert_eq!(command(&args(&["e"])), Command::Edit);
    assert_eq!(command(&args(&["edit"])), Command::Edit);
    assert_eq!(command(&args(&["ls"])), Command::List(None));
    assert_eq!(command(&args(&["ls", "-la"])), Command::List(Some("-la".to_string())));
    assert_eq!(command(&args(&["list", "-1"])), Command::List(Some("-1".to_string())));
    assert_eq!(command(&args(&["fp"])), Command::Footprint);
    assert_eq!(command(&args(&["footprint"])), Command::Footprint);
    assert_eq!(command(&args(&["paw"])), Command::Footprint);
    assert_eq!(command(&args(&["h"])), Command::Help);
    assert_eq!(command(&args(&["help"])), Command::Help);
    assert_eq!(command(&args(&["-h"])), Command::Help);
    assert_eq!(command(&args(&["--help"])), Command::Help);
    assert_eq!(command(&args(&["erc"])), Command::PrintEnvrc);
    assert_eq!(command(&args(&["deploy"])), Command::Script("deploy".to_string()));
    assert_eq!(command(&args(&[""])), Command::PrintEnvrc);
}

#[test]
fn paths_and_names() {
    assert_eq!(child_path("/p/bin", "run"), "/p/bin/run");
    assert_eq!(project_bin(None, "/home/me/proj"), "/home/me/proj/bin");
    assert_eq!(project_bin(Some("/opt/bin"), "/home/me/proj"), "/opt/bin");
    assert_eq!(footprint_name("me", "box"), "me@box.envrc");
    assert_eq!(project_name("/home/me/proj"), "proj");
    assert_eq!(project_name("/home/me/proj/"), "proj");
    assert_eq!(project_name("/"), "");
}

#[test]
fn envrc_lines() {
    let text = envrc_text("/p", "p", "01.02.2024");
    let expected = "#!/usr/bin/env bash\n\n\
[ -d /p/bin ] && export PATH=/p/bin:$PATH\n\
[ -d /p/node_modules/.bin ] && export PATH=/p/node_modules/.bin:$PATH\n\
export PROJECT_PATH=/p\n\
export PROJECT_BIN=/p/bin\n\
export PROJECT_NAME=p\n\
export PROJECT_CREATED=\"01.02.2024\"\n\
export VAR_ROOT=\"$PROJECT_PATH/tmp\"\n";
    assert_eq!(text, expected);
}

#[test]
fn envrc_of_today_has_a_dated_line() {
    let text = generate_envrc_content("/p", "p");
    let line = text.lines().find(|l| l.starts_with("export PROJECT_CREATED=")).unwrap();
    let date = line.trim_start_matches("export PROJECT_CREATED=\"").trim_end_matches('"');
    let parts: Vec<&str> = date.split('.').collect();
    assert_eq!(parts.len(), 3);
    assert_eq!(parts[0].len(), 2);
    assert_eq!(parts[1].len(), 2);
    assert_eq!(parts[2].len(), 4);
    assert!(text.starts_with("#!/usr/bin/env bash\n"));
}

#[test]
fn project_name_is_the_last_component() {
    assert_eq!(project_name("/home/u/proj"), "proj");
    assert_eq!(project_name("/home/u/proj/"), "proj");
    assert_eq!(project_name("/home/u/proj/./"), "proj");
    assert_eq!(project_name("/"), "");
    assert_eq!(project_name("/home/.."), "");
}
