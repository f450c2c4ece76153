use minigrep::{determine_case_sensitivity, Config};

fn strings(items: &[&str]) -> Vec<String> {
    items.iter().map(|s| String::from(*s)).collect()
}

#[test]
fn control_sensitivity() {
    let args: Vec<String> = vec![
        String::from("taregt/debug/minigrep"),
        String::from("to"),
        String::from("poem.txt"),
        String::from("-s")];
    let ignore_case = true;

    assert_ne!(ignore_case, determine_case_sensitivity(&args[3..], true))
}

#[test]
fn insensitive_token_wins_over_environment() {
    assert!(determine_case_sensitivity(&strings(&["-i"]), false));
    assert!(determine_case_sensitivity(&strings(&["-i"]), true));
    assert!(determine_case_sensitivity(&strings(&["x", "-i", "-s"]), false));
}

#[test]
fn first_recognised_token_decides() {
    assert!(!determine_case_sensitivity(&strings(&["-s", "-i"]), true));
    assert!(!determine_case_sensitivity(&strings(&["y", "-s"]), true));
    assert!(determine_case_sensitivity(&strings(&["-i", "-s"]), false));
}

#[test]
fn environment_decides_without_tokens() {
    assert!(determine_case_sensitivity(&strings(&[]), true));
    assert!(!determine_case_sensitivity(&strings(&[]), false));
    assert!(determine_case_sensitivity(&strings(&["-x", "i", "--i", "-is"]), true));
    assert!(!determine_case_sensitivity(&strings(&["-x", "s", "-S", "-I"]), false));
}

#[test]
fn build_needs_query_and_path() {
    assert_eq!(Some("not enough arguments"), Config::build(&strings(&[]), false).err());
    assert_eq!(
        Some("not enough arguments"),
        Config::build(&strings(&["prog", "to"]), true).err()
    );
}

#[test]
fn build_reads_query_path_and_mode() {
    let config = match Config::build(&strings(&["prog", "to", "poem.txt"]), true) {
        Ok(c) => c,
        Err(e) => panic!("{e}"),
    };
    assert_eq!("to", config.query);
    assert_eq!("poem.txt", config.file_path);
    assert!(config.ignore_case);

    let config = match Config::build(&strings(&["prog", "-i", "poem.txt", "-s"]), true) {
        Ok(c) => c,
        Err(e) => panic!("{e}"),
    };
    assert_eq!("-i", config.query);
    assert!(!config.ignore_case);

    let config = match Config::build(&strings(&["prog", "q", "f", "other", "-i"]), false) {
        Ok(c) => c,
        Err(e) => panic!("{e}"),
    };
    assert!(config.ignore_case);
}
