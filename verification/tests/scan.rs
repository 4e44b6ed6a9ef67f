use env_yoink::extract::ExtractError;
use env_yoink::presets::{get_preset_regex_pattern, Preset};
use env_yoink::scan::{collect_names, env_example};

fn names(list: &[&str]) -> Vec<String> {
    list.iter().map(|s| s.to_string()).collect()
}

fn files(list: &[&str]) -> Vec<Option<Vec<u8>>> {
    list.iter().map(|s| Some(s.as_bytes().to_vec())).collect()
}

#[test]
fn capture_correctness() {
    let tree = files(&["value = process.env.API_KEY;\n"]);
    let js = get_preset_regex_pattern(Preset::JS);
    let set = collect_names(&tree, &js).ok().unwrap();
    assert_eq!(set.names(), &names(&["API_KEY"]));
    assert_eq!(env_example(&tree, &js), Ok("API_KEY=\n".to_string()));
}

#[test]
fn multi_pattern_union() {
    let tree = files(&["a = process.env.FOO;\nb = process.env[\"BAR\"];\n"]);
    let js = get_preset_regex_pattern(Preset::JS);
    let set = collect_names(&tree, &js).ok().unwrap();
    assert!(set.contains("FOO"));
    assert!(set.contains("BAR"));
    assert_eq!(set.len(), 2);
    assert_eq!(env_example(&tree, &js), Ok("BAR=\nFOO=\n".to_string()));
}

#[test]
fn both_patterns_read_the_same_line() {
    let tree = files(&["process.env.FOO || process.env['BAR']\n"]);
    let js = get_preset_regex_pattern(Preset::JS);
    assert_eq!(env_example(&tree, &js), Ok("BAR=\nFOO=\n".to_string()));
}

#[test]
fn names_of_all_files_are_gathered_once() {
    let tree = files(&[
        "os.environ['HOME']\nos.environ.get('PORT')\n",
        "",
        "print(os.environ.get(\"HOME\"), os.environ[\"USER\"])\n",
    ]);
    let python = get_preset_regex_pattern(Preset::Python);
    assert_eq!(env_example(&tree, &python), Ok("HOME=\nPORT=\nUSER=\n".to_string()));
}

#[test]
fn no_match_gives_an_empty_text() {
    let tree = files(&["fn main() {}\n", "nothing to see\n"]);
    let rust = get_preset_regex_pattern(Preset::Rust);
    assert_eq!(env_example(&tree, &rust), Ok(String::new()));
    assert_eq!(collect_names(&tree, &rust).ok().unwrap().len(), 0);
}

#[test]
fn no_files_give_an_empty_text() {
    let go = get_preset_regex_pattern(Preset::Go);
    assert_eq!(env_example(&Vec::new(), &go), Ok(String::new()));
}

#[test]
fn no_patterns_give_an_empty_text() {
    let tree = files(&["process.env.FOO\n"]);
    assert_eq!(env_example(&tree, &Vec::new()), Ok(String::new()));
}

#[test]
fn run_is_repeatable() {
    let tree = files(&["std::env::var(\"B\")\n", "env::var('A'); env::var(\"C\")\n", "env::var(\"A\")\n"]);
    let rust = get_preset_regex_pattern(Preset::Rust);
    let first = env_example(&tree, &rust);
    let second = env_example(&tree, &rust);
    assert_eq!(first, second);
    assert_eq!(first, Ok("A=\nB=\n".to_string()));
}

#[test]
fn order_of_the_files_does_not_show() {
    let go = get_preset_regex_pattern(Preset::Go);
    let one = files(&["os.Getenv(\"B\")\n", "os.Getenv(\"A\")\n"]);
    let other = files(&["os.Getenv(\"A\")\n", "os.Getenv(\"B\")\nos.Getenv(\"A\")\n"]);
    assert_eq!(env_example(&one, &go), env_example(&other, &go));
}

#[test]
fn non_capturing_pattern_is_reported() {
    let tree = files(&["nothing\n", "x = process.env.API_KEY;\n"]);
    let custom = names(&[r"process\.env\.[A-Z_]+"]);
    assert_eq!(env_example(&tree, &custom), Err(ExtractError::NoCaptureGroup));
    assert!(matches!(collect_names(&tree, &custom), Err(ExtractError::NoCaptureGroup)));
}

#[test]
fn bad_pattern_ends_the_run() {
    let tree = files(&["process.env.FOO\n"]);
    let patterns = names(&[r"process\.env\.(\w+)", "("]);
    assert_eq!(env_example(&tree, &patterns), Err(ExtractError::BadPattern));
}

#[test]
fn unreadable_file_ends_the_run() {
    let tree = vec![Some(b"process.env.FOO\n".to_vec()), None];
    let js = get_preset_regex_pattern(Preset::JS);
    assert_eq!(env_example(&tree, &js), Err(ExtractError::Unreadable));
}

#[test]
fn first_failing_pattern_decides_the_error() {
    let tree = files(&["process.env.FOO\n"]);
    let patterns = names(&[r"process\.env\.\w+", "("]);
    assert_eq!(env_example(&tree, &patterns), Err(ExtractError::NoCaptureGroup));
}
