use trex::parse_args;

#[test]
fn filename_arg() {
    let k = String::from("-f");
    let v = String::from("value");
    assert!(parse_args::parse_argument(&k, &v));
}

#[test]
fn range_arg() {
    let r = String::from("-r");
    let v = String::from("1-3");
    assert!(parse_args::parse_argument(&r, &v));
}

#[test]
fn engine_arg() {
    let k = String::from("-e");
    let v = String::from("pdflatex");
    assert!(parse_args::parse_argument(&k, &v));
}

#[test]
fn unknown_and_flag_arguments_take_no_value() {
    let v = String::from("x");
    assert!(!parse_args::parse_argument(&String::from("-x"), &v));
    assert!(!parse_args::parse_argument(&String::from("-c"), &v));
    assert!(!parse_args::parse_argument(&String::from("-v"), &v));
    assert!(parse_args::parse_argument(&String::from("-j"), &v));
    assert!(parse_args::parse_argument(&String::from("-o"), &v));
}

fn strings(v: &[&str]) -> Vec<String> {
    v.iter().map(|s| s.to_string()).collect()
}

#[test]
fn parse_reads_pairs_and_flags() {
    let args = strings(&["trex", "-r", "1-3", "-c", "-x", "y", "-e", "latex", "-v"]);
    let map = parse_args::parse(args);
    assert_eq!(map.len(), 4);
    assert_eq!(map.get("-r").map(|s| s.as_str()), Some("1-3"));
    assert_eq!(map.get("-c").map(|s| s.as_str()), Some("true"));
    assert_eq!(map.get("-e").map(|s| s.as_str()), Some("latex"));
    assert_eq!(map.get("-v").map(|s| s.as_str()), Some("true"));
    assert!(!map.contains_key("-x"));
    assert!(!map.contains_key("y"));
    let keys: Vec<&str> = map.entries().iter().map(|e| e.0.as_str()).collect();
    assert_eq!(keys, vec!["-r", "-c", "-e", "-v"]);
}

#[test]
fn parse_skips_program_name_and_pads_last_value() {
    let map = parse_args::parse(strings(&["-r", "-j"]));
    // "-r" is the program's name; "-j" has no value after it.
    assert_eq!(map.len(), 1);
    assert_eq!(map.get("-j").map(|s| s.as_str()), Some(""));
    assert_eq!(map.get("-r"), None);
}

#[test]
fn parse_later_value_replaces_earlier() {
    let map = parse_args::parse(strings(&["trex", "-j", "a", "-f", "x.conf", "-j", "b"]));
    assert_eq!(map.len(), 2);
    assert_eq!(map.get("-j").map(|s| s.as_str()), Some("b"));
    let keys: Vec<&str> = map.entries().iter().map(|e| e.0.as_str()).collect();
    assert_eq!(keys, vec!["-j", "-f"]);
}

#[test]
fn parse_of_empty_list() {
    let map = parse_args::parse(Vec::new());
    assert_eq!(map.len(), 0);
}

#[test]
fn arg_map_insert_and_get() {
    let mut m = parse_args::ArgMap::new();
    m.insert(String::from("k"), String::from("1"));
    m.insert(String::from("l"), String::from("2"));
    m.insert(String::from("k"), String::from("3"));
    assert_eq!(m.len(), 2);
    assert_eq!(m.get("k").map(|s| s.as_str()), Some("3"));
    assert_eq!(m.get("l").map(|s| s.as_str()), Some("2"));
    assert_eq!(m.get("m"), None);
    assert!(m.contains_key("l"));
}
