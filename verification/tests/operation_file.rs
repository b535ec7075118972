use overwrite_automator::hash::calculate_hash;
use std::hash::{Hash, Hasher};
use overwrite_automator::lines::{read_lines, split_lines};
use overwrite_automator::operation::{Operation, OperationParseError, OverwriteStep};
use overwrite_automator::text::{parse_u8, push_u8_decimal};

fn chars(s: &str) -> Vec<char> {
    s.chars().collect()
}

fn sample() -> Operation {
    Operation {
        name: Some("Mods".to_string()),
        source: "~/Downloads/".to_string(),
        out: "~/Downloads/modsmodder-temp/".to_string(),
        actions: Operation::convert_actions_manual(vec![
            (1, "FirstPersonModel.jar"),
            (2, "HoldMyItems.jar"),
            (0, "Lodestone.jar"),
            (-1, "Wonderland.exe"),
        ]),
    }
}

#[test]
fn new_operation_is_empty() {
    let op = Operation::new();
    assert_eq!(op.name, None);
    assert_eq!(op.source, "");
    assert_eq!(op.out, "");
    assert!(op.actions.is_empty());
}

#[test]
fn convert_actions_manual_takes_codes_modulo_256() {
    let acts = Operation::convert_actions_manual(vec![
        (1, "a"),
        (-1, "b"),
        (256, "c"),
        (257, "d"),
        (-257, "e"),
        (255, "f"),
    ]);
    let codes: Vec<u8> = acts.iter().map(|a| a.0).collect();
    assert_eq!(codes, vec![1, 255, 0, 1, 255, 255]);
    assert_eq!(acts[1].1, "b");
    assert_eq!(acts[5].1, "f");
}

#[test]
fn parse_reads_name_router_and_actions() {
    let text = "My op\nskipped\nsrc/dir | out/dir\nskipped\nskipped\n1 | a.jar\n2 | b.jar\n";
    let op = Operation::try_from_bytes(text.as_bytes()).unwrap();
    assert_eq!(op.name, Some("My op".to_string()));
    assert_eq!(op.source, "src/dir");
    assert_eq!(op.out, "out/dir");
    assert_eq!(op.actions, vec![(1, "a.jar".to_string()), (2, "b.jar".to_string())]);
}

#[test]
fn parse_empty_file_has_no_contents() {
    assert_eq!(Operation::try_from_bytes(b"").unwrap_err(), OperationParseError::NoContents);
}

#[test]
fn parse_without_router_line() {
    assert_eq!(
        Operation::try_from_bytes(b"name\n\n").unwrap_err(),
        OperationParseError::NoRouterLine
    );
    assert_eq!(Operation::try_from_bytes(b"\n").unwrap_err(), OperationParseError::NoRouterLine);
}

#[test]
fn parse_unreadable_router_line() {
    let data: &[u8] = b"name\n\nsrc \xff | out\n";
    assert_eq!(
        Operation::try_from_bytes(data).unwrap_err(),
        OperationParseError::UnreadableRouterLine
    );
}

#[test]
fn parse_router_without_separator() {
    assert_eq!(
        Operation::try_from_bytes(b"name\n\nsrc|out\n").unwrap_err(),
        OperationParseError::MissingFolder
    );
    assert_eq!(
        Operation::try_from_bytes(b"name\n\n\n").unwrap_err(),
        OperationParseError::MissingFolder
    );
}

#[test]
fn parse_router_keeps_first_two_fields() {
    let op = Operation::try_from_bytes(b"\n\na | b | c\n").unwrap();
    assert_eq!(op.name, None);
    assert_eq!(op.source, "a");
    assert_eq!(op.out, "b");
    assert!(op.actions.is_empty());
}

#[test]
fn parse_unreadable_name_gives_no_name() {
    let op = Operation::try_from_bytes(b"\xc3\x28\n\nx | y").unwrap();
    assert_eq!(op.name, None);
    assert_eq!(op.source, "x");
    assert_eq!(op.out, "y");
}

#[test]
fn parse_action_lines_edge_cases() {
    let data: &[u8] = b"n\n\ns | o\n\n\n1 | x\nabc | y\n5\n7 | \n+3 | z\n256 | q\n-1 | w\n\xff | bad\n\n2 | p | r\r\n";
    let op = Operation::try_from_bytes(data).unwrap();
    assert_eq!(
        op.actions,
        vec![
            (1, "x".to_string()),
            (0, "y".to_string()),
            (0, "".to_string()),
            (0, "".to_string()),
            (3, "z".to_string()),
            (0, "q".to_string()),
            (0, "w".to_string()),
            (0, "".to_string()),
            (2, "p".to_string()),
        ]
    );
}

#[test]
fn lines_follow_bufread_lines() {
    let raw = split_lines(b"a\r\nb\n\nc\r");
    assert_eq!(raw, vec![b"a".to_vec(), b"b".to_vec(), b"".to_vec(), b"c\r".to_vec()]);
    let raw = split_lines(b"x\n");
    assert_eq!(raw, vec![b"x".to_vec()]);
    assert!(split_lines(b"").is_empty());
    let lines = read_lines(b"ok\n\xfe\nend");
    assert_eq!(lines, vec![Some("ok".to_string()), None, Some("end".to_string())]);
}

#[test]
fn action_code_parsing() {
    assert_eq!(parse_u8(&chars("0")), Some(0));
    assert_eq!(parse_u8(&chars("255")), Some(255));
    assert_eq!(parse_u8(&chars("0000255")), Some(255));
    assert_eq!(parse_u8(&chars("+7")), Some(7));
    assert_eq!(parse_u8(&chars("256")), None);
    assert_eq!(parse_u8(&chars("+")), None);
    assert_eq!(parse_u8(&chars("")), None);
    assert_eq!(parse_u8(&chars("-0")), None);
    assert_eq!(parse_u8(&chars(" 1")), None);
    assert_eq!(parse_u8(&chars("99999999999")), None);
    for n in 0..=255u8 {
        assert_eq!(parse_u8(&chars(&n.to_string())), Some(n));
        assert_eq!(parse_u8(&chars(&n.to_string())), n.to_string().parse::<u8>().ok());
    }
}

#[test]
fn decimal_text_of_codes() {
    for n in 0..=255u8 {
        let mut s = String::new();
        push_u8_decimal(&mut s, n);
        assert_eq!(s, n.to_string());
    }
}

#[test]
fn saved_text_layout() {
    let op = sample();
    let text = op.to_file_text();
    assert_eq!(
        text,
        "Mods\n\n~/Downloads/ | ~/Downloads/modsmodder-temp/\n\n\n1 | FirstPersonModel.jar\n2 | HoldMyItems.jar\n0 | Lodestone.jar\n255 | Wonderland.exe\n"
    );
    let unnamed = Operation::new();
    assert_eq!(unnamed.to_file_text(), "\n\n | \n\n\n");
}

#[test]
fn load_after_save_gives_the_operation_back() {
    let op = sample();
    let back = Operation::try_from_bytes(op.to_file_text().as_bytes()).unwrap();
    assert_eq!(back.name, op.name);
    assert_eq!(back.source, op.source);
    assert_eq!(back.out, op.out);
    assert_eq!(back.actions, op.actions);

    let odd = Operation {
        name: None,
        source: "C:\\dir with spaces |x".to_string(),
        out: "ünïcödé/✓".to_string(),
        actions: vec![(0, String::new()), (42, "a|b".to_string()), (9, "x\ry".to_string())],
    };
    let back = Operation::try_from_bytes(odd.to_file_text().as_bytes()).unwrap();
    assert_eq!(back.name, odd.name);
    assert_eq!(back.source, odd.source);
    assert_eq!(back.out, odd.out);
    assert_eq!(back.actions, odd.actions);
}

#[test]
fn slintify_fields() {
    let mut op = sample();
    let (acts, name, out, source) = op.slintify();
    assert_eq!(acts[0], (1, "FirstPersonModel.jar".to_string()));
    assert_eq!(acts[3], (255, "Wonderland.exe".to_string()));
    assert_eq!(name, "Mods");
    assert_eq!(out, "~/Downloads/modsmodder-temp/");
    assert_eq!(source, "~/Downloads/");
    let mut unnamed = Operation::new();
    let (acts, name, _, _) = unnamed.slintify();
    assert!(acts.is_empty());
    assert_eq!(name, "Unnamed Operation");
}

#[test]
fn overwrite_plan_follows_action_codes() {
    let steps = sample().plan_overwrite();
    assert_eq!(steps.len(), 4);
    assert!(matches!(&steps[0], OverwriteStep::Copy { path } if path == "FirstPersonModel.jar"));
    assert!(matches!(&steps[1], OverwriteStep::Remove { path } if path == "HoldMyItems.jar"));
    assert!(matches!(&steps[2], OverwriteStep::Invalid { code: 0, path } if path == "Lodestone.jar"));
    assert!(matches!(&steps[3], OverwriteStep::Invalid { code: 255, path } if path == "Wonderland.exe"));
}

#[derive(Hash)]
struct PathOperation {
    name: Option<String>,
    source: std::path::PathBuf,
    out: std::path::PathBuf,
    actions: Vec<(u8, std::path::PathBuf)>,
}

#[test]
fn hash_matches_hash_of_the_path_form() {
    let op = sample();
    let same = PathOperation {
        name: op.name.clone(),
        source: std::path::PathBuf::from(&op.source),
        out: std::path::PathBuf::from(&op.out),
        actions: op.actions.iter().map(|a| (a.0, std::path::PathBuf::from(&a.1))).collect(),
    };
    let mut h = std::hash::DefaultHasher::new();
    same.hash(&mut h);
    assert_eq!(calculate_hash(&op), h.finish());
    assert_eq!(calculate_hash(&op), calculate_hash(&op.clone()));
    assert_ne!(calculate_hash(&op), calculate_hash(&Operation::new()));
}
