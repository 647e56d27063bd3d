use clipro::{find_matches, Config};

fn args(items: &[&str]) -> Vec<String> {
    items.iter().map(|s| s.to_string()).collect()
}

#[test]
fn no_arguments_is_an_error() {
    assert_eq!(Some("not enough arguments"), Config::new(&args(&["prog"]), false).err());
    assert!(Config::new(&args(&[]), false).is_err());
}

#[test]
fn one_argument_is_an_error() {
    assert_eq!(Some("not enough arguments"), Config::new(&args(&["prog", "query"]), true).err());
}

#[test]
fn two_arguments_build_settings() {
    let config = Config::new(&args(&["prog", "needle", "poem.txt"]), false).ok().unwrap();
    assert_eq!("needle", config.query);
    assert_eq!("poem.txt", config.filename);
    assert!(config.case_sens);
}

#[test]
fn flag_makes_search_case_insensitive() {
    let config = Config::new(&args(&["prog", "needle", "poem.txt", "extra"]), true).ok().unwrap();
    assert_eq!("needle", config.query);
    assert_eq!("poem.txt", config.filename);
    assert!(!config.case_sens);
}

#[test]
fn settings_choose_the_search() {
    let contents = "Rust:\nsafe, fast productive.\npick three.\nTrust me.";
    let exact = Config::new(&args(&["prog", "rUsT", "f"]), false).ok().unwrap();
    let folded = Config::new(&args(&["prog", "rUsT", "f"]), true).ok().unwrap();
    assert_eq!(Vec::<&str>::new(), find_matches(&exact, contents));
    assert_eq!(vec!["Rust:", "Trust me."], find_matches(&folded, contents));
}
