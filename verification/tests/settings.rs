use perso::config::{parse_args, parse_number, ArgError, Config};

fn args(list: &[&str]) -> Vec<String> {
    list.iter().map(|s| s.to_string()).collect()
}

fn parsed(list: &[&str]) -> Config {
    match parse_args(&args(list)) {
        Ok(c) => c,
        Err(_) => panic!("the arguments were refused"),
    }
}

#[test]
fn defaults_without_flags() {
    let c = parsed(&[]);
    assert_eq!(c.pdf_path, "knowledge.pdf");
    assert_eq!(c.model, "llama3:latest");
    assert_eq!(c.top_k, 3);
    assert_eq!(c.embedding_dims, 768);
    let d = Config::standard();
    assert_eq!((d.pdf_path, d.model, d.top_k, d.embedding_dims), (c.pdf_path, c.model, 3, 768));
}

#[test]
fn each_flag_sets_its_field() {
    let c = parsed(&["--pdf", "notes.pdf", "--model", "mistral", "--top-k", "5", "--embedding-dims", "1024"]);
    assert_eq!(c.pdf_path, "notes.pdf");
    assert_eq!(c.model, "mistral");
    assert_eq!(c.top_k, 5);
    assert_eq!(c.embedding_dims, 1024);
}

#[test]
fn flags_in_any_order_and_last_wins() {
    let c = parsed(&["--top-k", "0", "--pdf", "a.pdf", "--top-k", "12", "--pdf", "b.pdf"]);
    assert_eq!(c.pdf_path, "b.pdf");
    assert_eq!(c.top_k, 12);
    assert_eq!(c.model, "llama3:latest");
    assert_eq!(c.embedding_dims, 768);
}

#[test]
fn a_value_may_look_like_a_flag() {
    let c = parsed(&["--pdf", "--model"]);
    assert_eq!(c.pdf_path, "--model");
    assert_eq!(c.model, "llama3:latest");
}

#[test]
fn unknown_flag_is_refused() {
    assert!(matches!(parse_args(&args(&["--verbose"])), Err(ArgError::UnknownFlag(a)) if a == "--verbose"));
    assert!(matches!(parse_args(&args(&["notes.pdf"])), Err(ArgError::UnknownFlag(a)) if a == "notes.pdf"));
    assert!(matches!(parse_args(&args(&["--pdf", "a.pdf", "--PDF", "b.pdf"])), Err(ArgError::UnknownFlag(a)) if a == "--PDF"));
    assert!(matches!(parse_args(&args(&[""])), Err(ArgError::UnknownFlag(a)) if a.is_empty()));
}

#[test]
fn flag_without_value_is_refused() {
    assert!(matches!(parse_args(&args(&["--pdf"])), Err(ArgError::MissingValue(a)) if a == "--pdf"));
    assert!(matches!(parse_args(&args(&["--model", "m", "--top-k"])), Err(ArgError::MissingValue(a)) if a == "--top-k"));
}

#[test]
fn bad_number_is_refused() {
    assert!(matches!(parse_args(&args(&["--top-k", "three"])), Err(ArgError::InvalidNumber(a)) if a == "three"));
    assert!(matches!(parse_args(&args(&["--top-k", "-1"])), Err(ArgError::InvalidNumber(a)) if a == "-1"));
    assert!(matches!(parse_args(&args(&["--embedding-dims", ""])), Err(ArgError::InvalidNumber(a)) if a.is_empty()));
    assert!(matches!(parse_args(&args(&["--embedding-dims", "99999999999999999999999999"])), Err(ArgError::InvalidNumber(_))));
}

#[test]
fn first_fault_is_reported() {
    assert!(matches!(parse_args(&args(&["--top-k", "x", "--bogus"])), Err(ArgError::InvalidNumber(a)) if a == "x"));
    assert!(matches!(parse_args(&args(&["--bogus", "--top-k"])), Err(ArgError::UnknownFlag(a)) if a == "--bogus"));
}

#[test]
fn parse_number_exact_values() {
    assert_eq!(parse_number("0"), Some(0));
    assert_eq!(parse_number("7"), Some(7));
    assert_eq!(parse_number("768"), Some(768));
    assert_eq!(parse_number("000123"), Some(123));
    assert_eq!(parse_number(&usize::MAX.to_string()), Some(usize::MAX));
}

#[test]
fn parse_number_refusals() {
    assert_eq!(parse_number(""), None);
    assert_eq!(parse_number("+1"), None);
    assert_eq!(parse_number("-1"), None);
    assert_eq!(parse_number("1 "), None);
    assert_eq!(parse_number(" 1"), None);
    assert_eq!(parse_number("12a"), None);
    assert_eq!(parse_number("1.5"), None);
    assert_eq!(parse_number("\u{0661}"), None);
    let mut over = usize::MAX.to_string();
    let last = over.pop().map(|c| c as u8 + 1);
    over.push(last.map(|b| b as char).unwrap_or('6'));
    assert_eq!(parse_number(&over), None);
    assert_eq!(parse_number(&format!("{}0", usize::MAX)), None);
}

#[test]
fn refusals_name_the_argument() {
    assert_eq!(ArgError::UnknownFlag("--x".to_string()).message(), "Unknown argument: --x");
    assert_eq!(ArgError::MissingValue("--pdf".to_string()).message(), "Missing value for --pdf");
    assert_eq!(ArgError::InvalidNumber("3x".to_string()).message(), "Not a number: 3x");
}
