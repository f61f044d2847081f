use shoe::ansi::strip;
use shoe::ansi::strip_str;
use shoe::binfind::get_script_runtime;
use shoe::commands::builtin_names;
use shoe::commands::echo;
use shoe::commands::hex_to_color;
use shoe::commands::insert_string;
use shoe::commands::into_columns;
use shoe::commands::match_pattern;
use shoe::commands::merge_for_append;
use shoe::commands::theme_command;
use shoe::commands::themes;
use shoe::commands::ThemeCmd;
use shoe::pathindex::add_dir_to_index;
use shoe::pathindex::choose_binary;
use shoe::pathindex::executable_stems;
use shoe::pathindex::get_path_extensions;
use shoe::pathindex::get_path_variants;
use shoe::pathindex::PathIndex;
use shoe::render::absolute_pathbuf_to_string;
use shoe::render::cwd_display;
use shoe::render::cursor_wrap;
use shoe::render::replace_case_insensitive;
use shoe::render::token_color;
use shoe::render::ColorRole;
use shoe::token::parse_text_to_tokens;

#[test]
fn echo_hex_escapes() {
    // echo \x68\x69 prints `hi` and a newline
    let args = vec!["\\x68\\x69".to_string()];
    let out = echo(&args, &Vec::new());
    assert_eq!(out, b"hi\n".to_vec());
}

#[test]
fn echo_plain_and_flags() {
    let out = echo(&vec!["hello".to_string()], &Vec::new());
    assert_eq!(out, b"hello\n".to_vec());
    let out = echo(&vec!["-n".to_string(), "hello".to_string()], &Vec::new());
    assert_eq!(out, b"hello".to_vec());
    let out = echo(&vec!["--no-newline".to_string(), "x".to_string()], &Vec::new());
    assert_eq!(out, b"x".to_vec());
}

#[test]
fn echo_invalid_hex_stays_text() {
    let out = echo(&vec!["\\xzz".to_string()], &Vec::new());
    assert_eq!(out, b"\\xzz\n".to_vec());
}

#[test]
fn echo_passes_stdin_through() {
    let out = echo(&vec!["ignored".to_string()], &b"raw stdin".to_vec());
    assert_eq!(out, b"raw stdin".to_vec());
}

#[test]
fn match_pattern_wildcard() {
    let entries = vec!["data.a".to_string(), "data.b".to_string(), "other".to_string()];
    let m = match_pattern(&entries, "data.*");
    assert_eq!(m, vec!["data.a".to_string(), "data.b".to_string()]);
    let m = match_pattern(&entries, "*");
    assert_eq!(m.len(), 3);
    let m = match_pattern(&entries, "d*b");
    assert_eq!(m, vec!["data.b".to_string()]);
}

#[test]
fn match_pattern_exact() {
    let entries = vec!["aa".to_string(), "bb".to_string()];
    assert_eq!(match_pattern(&entries, "bb"), vec!["bb".to_string()]);
    assert_eq!(match_pattern(&entries, "cc"), Vec::<String>::new());
}

#[test]
fn append_merge_inserts_newline() {
    // an old file without a trailing newline gets one before the new bytes
    let merged = merge_for_append(&b"old".to_vec(), &b"new".to_vec());
    assert_eq!(merged, b"old\nnew".to_vec());
    let merged = merge_for_append(&b"old\n".to_vec(), &b"new".to_vec());
    assert_eq!(merged, b"old\nnew".to_vec());
    // an empty file counts as ending in a newline
    let merged = merge_for_append(&Vec::new(), &b"new".to_vec());
    assert_eq!(merged, b"new".to_vec());
    let merged = merge_for_append(&b"old".to_vec(), &b"\nnew".to_vec());
    assert_eq!(merged, b"old\nnew".to_vec());
}

#[test]
fn insert_string_overwrites() {
    assert_eq!(insert_string("0123456789".to_string(), "ab".to_string(), 3), "012ab56789");
    // insertion beyond the base is dropped
    assert_eq!(insert_string("01".to_string(), "abc".to_string(), 1), "0a");
    assert_eq!(insert_string("01".to_string(), "abc".to_string(), 5), "01");
}

#[test]
fn theme_lookup() {
    let all = themes();
    let r = theme_command(&vec!["lime".to_string()], &all);
    match r {
        Ok(ThemeCmd::Update(i)) => assert_eq!(i, 3),
        _ => panic!("expected an update"),
    }
    let r = theme_command(&vec!["nope".to_string()], &all);
    match r {
        Err(m) => assert_eq!(m, "No theme by name 'nope'"),
        _ => panic!("expected an error"),
    }
    let r = theme_command(&Vec::new(), &all);
    assert!(matches!(r, Ok(ThemeCmd::Listing)));
}

#[test]
fn theme_colors() {
    let all = themes();
    assert_eq!(all[0].name, "gold");
    assert_eq!(all[0].primary, (0xFF, 0xC1, 0x45));
    assert_eq!(hex_to_color(0x5B5F97), (0x5B, 0x5F, 0x97));
}

#[test]
fn builtin_registry_order() {
    let names = builtin_names();
    assert_eq!(names[0], "ls");
    assert_eq!(names[3], "echo");
    assert_eq!(names[14], "exit");
    assert_eq!(names.len(), 15);
}

#[test]
fn script_runtimes() {
    assert_eq!(get_script_runtime("py"), Some("python3"));
    assert_eq!(get_script_runtime("js"), Some("node"));
    assert_eq!(get_script_runtime("vbs"), Some("wscript"));
    assert_eq!(get_script_runtime("sh"), None);
}

#[test]
fn strip_removes_color_codes() {
    assert_eq!(strip_str("\x1b[32mfoo\x1b[m bar"), "foo bar");
    assert_eq!(strip_str("plain"), "plain");
    assert_eq!(strip_str("a\x1b]0;12\x07b"), "ab");
    // a non-bracket escape covers one character
    assert_eq!(strip_str("a\x1bXb"), "ab");
}

#[test]
fn strip_bytes_lenient_decoding() {
    assert_eq!(strip(b"\x1b[31mred\x1b[0m".to_vec()), b"red".to_vec());
    // invalid UTF-8 decodes to the replacement character before stripping
    let out = strip(vec![0xff, b'a', b'b']);
    assert_eq!(out, "\u{fffd}ab".as_bytes().to_vec());
}

#[test]
fn path_index_first_wins() {
    // two PATH directories hold files of equal lowercased name: the first wins
    let mut index = PathIndex::new();
    add_dir_to_index(&mut index, &"/first".to_string(), &vec!["Tool".to_string()]);
    add_dir_to_index(&mut index, &"/second".to_string(), &vec!["tool".to_string()]);
    assert_eq!(index.lookup("tool"), Some("/first/Tool".to_string()));
    // the lowercased key is what lookups use
    assert_eq!(index.lookup("Tool"), None);
}

#[test]
fn path_variants_and_extensions() {
    let exts = get_path_extensions(false);
    assert!(exts.is_empty());
    assert_eq!(get_path_variants("prog", &exts), vec!["prog".to_string()]);
    let exts = get_path_extensions(true);
    assert_eq!(
        get_path_variants("prog", &exts),
        vec![
            "prog.exe".to_string(),
            "prog.bat".to_string(),
            "prog.cmd".to_string(),
            "prog".to_string()
        ]
    );
}

#[test]
fn binary_choice_prefers_files_then_index() {
    let mut index = PathIndex::new();
    add_dir_to_index(&mut index, &"/bin".to_string(), &vec!["prog".to_string()]);
    let variants = vec!["prog".to_string()];
    // an existing file wins
    let r = choose_binary(&variants, &vec![true], &index);
    assert_eq!(r, Some("prog".to_string()));
    // otherwise the index resolves
    let r = choose_binary(&variants, &vec![false], &index);
    assert_eq!(r, Some("/bin/prog".to_string()));
    // otherwise nothing
    let r = choose_binary(&vec!["nope".to_string()], &vec![false], &index);
    assert_eq!(r, None);
}

#[test]
fn executable_stems_sorted_shortest_first() {
    let names = vec![
        "longtool.exe".to_string(),
        "ab.bat".to_string(),
        "noext".to_string(),
        "c.cmd".to_string(),
    ];
    let exts = get_path_extensions(true);
    let stems = executable_stems(&names, &exts);
    assert_eq!(stems, vec!["c".to_string(), "ab".to_string(), "longtool".to_string()]);
}

#[test]
fn path_components_join() {
    let comps = vec!["home".to_string(), "u".to_string(), "dir".to_string()];
    assert_eq!(absolute_pathbuf_to_string(&comps), "home/u/dir");
}

#[test]
fn cwd_shows_tilde_for_home() {
    let comps = vec!["home".to_string(), "u".to_string(), "work".to_string()];
    assert_eq!(cwd_display(&comps, "home/u", false), "~/work");
    // case-insensitively on Windows-like platforms
    let comps = vec!["Home".to_string(), "U".to_string(), "work".to_string()];
    assert_eq!(cwd_display(&comps, "home/u", true), "~/work");
    assert_eq!(cwd_display(&comps, "home/u", false), "Home/U/work");
}

#[test]
fn replace_case_insensitive_first_occurrence() {
    assert_eq!(
        replace_case_insensitive("Hello World".to_string(), "WORLD".to_string(), "there".to_string()),
        "Hello there"
    );
    assert_eq!(
        replace_case_insensitive("aaa".to_string(), "zz".to_string(), "x".to_string()),
        "aaa"
    );
}

#[test]
fn wrap_aware_cursor() {
    assert_eq!(cursor_wrap(5, 3, 10), (0, 8));
    assert_eq!(cursor_wrap(5, 10, 10), (1, 5));
    assert_eq!(cursor_wrap(0, 25, 10), (2, 5));
}

#[test]
fn token_colors() {
    let toks = parse_text_to_tokens("echo -n \"q\" %V% ;", false);
    let mut roles = Vec::new();
    for t in &toks {
        roles.push((t.text.clone(), token_color(t)));
    }
    assert!(roles.contains(&("echo".to_string(), ColorRole::Primary)));
    assert!(roles.contains(&("-n".to_string(), ColorRole::Secondary)));
    assert!(roles.contains(&("q".to_string(), ColorRole::Secondary)));
    assert!(roles.contains(&("V".to_string(), ColorRole::Primary)));
    assert!(roles.contains(&(";".to_string(), ColorRole::Secondary)));
}

#[test]
fn columns_layout() {
    // no newline: unchanged
    assert_eq!(into_columns("single", 10), "single");
    // all items fit one row
    assert_eq!(into_columns("a\nb\nc\nd", 10), "abcd      ");
    // one column when nothing more fits
    assert_eq!(into_columns("aa\nbb\ncc", 5), "aa   \nbb   \ncc   ");
}
