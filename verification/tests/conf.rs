use moku::conf::{
    default_server_conf, entry_line, find_key_line, patch_conf_key, patch_safety_keys,
    seed_server_conf, ConfFile, SeedAction, DEFAULT_SERVER_CONF,
};

fn patch_with_std(mut text: String, key: &str, value: &str) -> String {
    let replacement = format!("{key} = {value}");
    let mut from = 0;
    for raw in text.split_inclusive('\n') {
        let line = match raw.strip_suffix('\n') {
            Some(l) => l.strip_suffix('\r').unwrap_or(l),
            None => raw,
        };
        if line.trim_start().starts_with(key) {
            return format!("{}{}{}", &text[..from], replacement, &text[from + line.len()..]);
        }
        from += raw.len();
    }
    if !text.ends_with('\n') {
        text.push('\n');
    }
    text.push_str(&replacement);
    text.push('\n');
    text
}

#[test]
fn entry_line_format() {
    assert_eq!(entry_line("foo", "false"), "foo = false");
    assert_eq!(entry_line("server.port", "4567"), "server.port = 4567");
    assert_eq!(entry_line("", ""), " = ");
}

#[test]
fn find_key_line_first_match() {
    let ls: Vec<String> = vec!["a = 1".into(), "  foo = 2".into(), "foo = 3".into()];
    assert_eq!(find_key_line(&ls, "foo"), Some(1));
    assert_eq!(find_key_line(&ls, "a"), Some(0));
    assert_eq!(find_key_line(&ls, "bar"), None);
    assert_eq!(find_key_line(&Vec::new(), "bar"), None);
}

#[test]
fn patch_rewrites_the_line_and_keeps_the_line_count() {
    let text = "a = 1\nfoo = true\nb = 2\n".to_string();
    let before = text.lines().count();
    let out = patch_conf_key(text, "foo", "false");
    assert_eq!(out, "a = 1\nfoo = false\nb = 2\n");
    let after: Vec<&str> = out.lines().collect();
    assert_eq!(after.len(), before);
    assert_eq!(after[1], "foo = false");
}

#[test]
fn patch_appends_one_line_when_the_key_is_absent() {
    let text = "a = 1\nb = 2\n".to_string();
    let out = patch_conf_key(text, "foo", "false");
    assert_eq!(out, "a = 1\nb = 2\nfoo = false\n");
    let after: Vec<&str> = out.lines().collect();
    assert_eq!(after, vec!["a = 1", "b = 2", "foo = false"]);
}

#[test]
fn patch_appends_after_a_missing_final_newline() {
    assert_eq!(patch_conf_key("a = 1".to_string(), "foo", "false"), "a = 1\nfoo = false\n");
}

#[test]
fn patch_on_empty_text() {
    assert_eq!(patch_conf_key(String::new(), "foo", "false"), "\nfoo = false\n");
}

#[test]
fn patch_replaces_only_the_first_match() {
    let out = patch_conf_key("foo = 1\nfoo = 2\n".to_string(), "foo", "x");
    assert_eq!(out, "foo = x\nfoo = 2\n");
}

#[test]
fn patch_matches_by_prefix_after_leading_space() {
    assert_eq!(patch_conf_key("  foobar = 1\nfoo = 2".to_string(), "foo", "x"), "foo = x\nfoo = 2");
}

#[test]
fn patch_keeps_every_line_end() {
    assert_eq!(
        patch_conf_key("a = 1\r\nfoo = 2\r\nb\n".to_string(), "foo", "x"),
        "a = 1\r\nfoo = x\r\nb\n"
    );
    assert_eq!(patch_conf_key("foo = true\n".to_string(), "foo", "false"), "foo = false\n");
    assert_eq!(patch_conf_key("foo = true".to_string(), "foo", "false"), "foo = false");
    assert_eq!(patch_conf_key("foo = true\r".to_string(), "foo", "false"), "foo = false");
    assert_eq!(patch_conf_key("a\n\nfoo\n\n".to_string(), "foo", "1"), "a\n\nfoo = 1\n\n");
}

#[test]
fn patch_counts_in_characters() {
    assert_eq!(
        patch_conf_key("\u{e9}t\u{e9} = 1\n  cl\u{e9} = 2\r\nfin\u{2713}".to_string(), "cl\u{e9}", "3"),
        "\u{e9}t\u{e9} = 1\ncl\u{e9} = 3\r\nfin\u{2713}"
    );
}

#[test]
fn patch_agrees_with_std_iterators() {
    let alphabet = ['k', ' ', '\n', '\r', '='];
    for len in 0..7usize {
        let total = alphabet.len().pow(len as u32);
        for code in 0..total {
            let mut s = String::new();
            let mut c = code;
            for _ in 0..len {
                s.push(alphabet[c % alphabet.len()]);
                c /= alphabet.len();
            }
            for key in ["k", "kk", "", " k"] {
                assert_eq!(
                    patch_conf_key(s.clone(), key, "v"),
                    patch_with_std(s.clone(), key, "v"),
                    "{:?} {:?}",
                    s,
                    key
                );
            }
        }
    }
}

const SAFETY_LINES: [&str; 3] = [
    "server.webUIEnabled = false",
    "server.initialOpenInBrowserEnabled = false",
    "server.systemTrayEnabled = false",
];

fn has_line(text: &str, line: &str) -> bool {
    text.lines().any(|l| l == line)
}

#[test]
fn default_conf_text() {
    let expected = "server.ip = \"127.0.0.1\"\n\
server.port = 4567\n\
server.webUIEnabled = false\n\
server.initialOpenInBrowserEnabled = false\n\
server.systemTrayEnabled = false\n\
server.webUIInterface = \"browser\"\n\
server.webUIFlavor = \"WebUI\"\n\
server.webUIChannel = \"stable\"\n\
server.electronPath = \"\"\n\
server.debugLogsEnabled = false\n\
server.downloadAsCbz = true\n\
server.autoDownloadNewChapters = false\n\
server.globalUpdateInterval = 12\n\
server.maxSourcesInParallel = 6\n\
server.extensionRepos = []\n";
    assert_eq!(DEFAULT_SERVER_CONF, expected);
    assert_eq!(default_server_conf(), expected);
    assert_eq!(DEFAULT_SERVER_CONF.len(), 457);
}

#[test]
fn seeding_where_no_file_is_creates_the_default_with_the_settings_off() {
    match seed_server_conf(ConfFile::Missing) {
        SeedAction::Create(text) => {
            assert_eq!(text, DEFAULT_SERVER_CONF);
            for line in SAFETY_LINES {
                assert!(has_line(&text, line), "{}", line);
            }
        }
        other => panic!("unexpected {:?}", other),
    }
}

#[test]
fn seeding_an_existing_file_forces_the_setting_off_and_keeps_the_rest() {
    let found = ConfFile::Present("server.port = 9999\nserver.webUIEnabled = true\n".to_string());
    match seed_server_conf(found) {
        SeedAction::Rewrite(text) => {
            assert!(has_line(&text, "server.webUIEnabled = false"));
            assert!(!has_line(&text, "server.webUIEnabled = true"));
            assert!(has_line(&text, "server.port = 9999"));
            assert_eq!(
                text,
                "server.port = 9999\nserver.webUIEnabled = false\n\
server.initialOpenInBrowserEnabled = false\nserver.systemTrayEnabled = false\n"
            );
        }
        other => panic!("unexpected {:?}", other),
    }
}

#[test]
fn seeding_an_unreadable_file_leaves_it() {
    assert_eq!(seed_server_conf(ConfFile::Unreadable), SeedAction::Leave);
}

#[test]
fn seeding_an_empty_file_adds_the_three_settings() {
    assert_eq!(
        seed_server_conf(ConfFile::Present(String::new())),
        SeedAction::Rewrite(
            "\nserver.webUIEnabled = false\nserver.initialOpenInBrowserEnabled = false\n\
server.systemTrayEnabled = false\n"
                .to_string()
        )
    );
}

#[test]
fn patched_safety_keys_are_off_whatever_the_text() {
    let texts = [
        "",
        "\n",
        "server.webUIEnabled = true",
        "server.systemTrayEnabled = true\r\nserver.webUIEnabled = true\r\n",
        "  server.initialOpenInBrowserEnabled=true\n\n\n",
        "server.webUIEnabledX = 1\nserver.webUIEnabled = true\n",
        "a\rb\r\r\n\r",
    ];
    for text in texts {
        let out = patch_safety_keys(text.to_string());
        for line in SAFETY_LINES {
            assert!(has_line(&out, line), "{:?} -> {:?} lacks {:?}", text, out, line);
        }
    }
}

#[test]
fn patching_the_default_changes_nothing() {
    assert_eq!(patch_safety_keys(DEFAULT_SERVER_CONF.to_string()), DEFAULT_SERVER_CONF);
    assert_eq!(
        seed_server_conf(ConfFile::Present(DEFAULT_SERVER_CONF.to_string())),
        SeedAction::Rewrite(DEFAULT_SERVER_CONF.to_string())
    );
}

#[test]
fn rewriting_keeps_the_other_lines() {
    let text = "a = 1\nfoo = true\nb = 2";
    let before: Vec<&str> = text.lines().collect();
    let out = patch_conf_key(text.to_string(), "foo", "false");
    let after: Vec<&str> = out.lines().collect();
    assert_eq!(after.len(), before.len());
    assert_eq!(after[0], before[0]);
    assert_eq!(after[1], "foo = false");
    assert_eq!(after[2], before[2]);
}

#[test]
fn rewriting_keeps_an_empty_last_line() {
    let text = "foo = true\n\n";
    assert_eq!(text.lines().count(), 2);
    let out = patch_conf_key(text.to_string(), "foo", "false");
    assert_eq!(out, "foo = false\n\n");
    assert_eq!(out.lines().count(), 2);
}

#[test]
fn appending_closes_a_last_line_that_ends_with_a_carriage_return() {
    let text = "a\r";
    assert_eq!(text.lines().collect::<Vec<_>>(), vec!["a\r"]);
    let out = patch_conf_key(text.to_string(), "foo", "false");
    assert_eq!(out, "a\r\nfoo = false\n");
    assert_eq!(out.lines().collect::<Vec<_>>(), vec!["a", "foo = false"]);
}

#[test]
fn appending_keeps_the_lines_before() {
    for text in ["a = 1", "a = 1\n", "a = 1\nb = 2", "\n", "a\r\nb\n", " x \n\n"] {
        let before: Vec<String> = text.lines().map(|l| l.to_string()).collect();
        let out = patch_conf_key(text.to_string(), "foo", "false");
        let after: Vec<String> = out.lines().map(|l| l.to_string()).collect();
        assert_eq!(after.len(), before.len() + 1, "{:?}", text);
        assert_eq!(&after[..before.len()], &before[..], "{:?}", text);
        assert_eq!(after[before.len()], "foo = false");
    }
}

#[test]
fn patching_twice_gives_what_patching_once_gave() {
    let texts = [
        "",
        "a = 1",
        "a = 1\n",
        "foo = 1\nb = 2\n",
        "b = 2\n  foo = 7",
        "\n\nfoo\n",
        "x\r\r\nfoo = 1\r\n\r\n",
        "a\r",
    ];
    for text in texts {
        let once = patch_conf_key(text.to_string(), "foo", "false");
        let twice = patch_conf_key(once.clone(), "foo", "false");
        assert_eq!(twice, once, "{:?}", text);
    }
    assert_eq!(patch_conf_key("a = 1".to_string(), "foo", "false"), "a = 1\nfoo = false\n");
}

#[test]
fn seeding_twice_leaves_the_file_as_the_first_seeding_left_it() {
    let texts = [
        "",
        "x = 1",
        "x = 1\n",
        "server.webUIEnabled = true\n\n",
        "server.systemTrayEnabled = true\r\nserver.webUIEnabled = true\r\n",
        "  server.initialOpenInBrowserEnabled=true\n\n\n",
        "a\rb\r\r\n\r",
    ];
    for text in texts {
        let once = patch_safety_keys(text.to_string());
        assert_eq!(patch_safety_keys(once.clone()), once, "{:?}", text);
        assert_eq!(
            seed_server_conf(ConfFile::Present(once.clone())),
            SeedAction::Rewrite(once),
            "{:?}",
            text
        );
    }
    assert_eq!(
        patch_safety_keys("x = 1".to_string()),
        "x = 1\nserver.webUIEnabled = false\nserver.initialOpenInBrowserEnabled = false\n\
server.systemTrayEnabled = false\n"
    );
}

#[test]
fn seeding_keeps_the_lines_of_other_keys_where_they_are() {
    let out = patch_safety_keys("server.webUIEnabled = true\n\n".to_string());
    assert_eq!(
        out,
        "server.webUIEnabled = false\n\nserver.initialOpenInBrowserEnabled = false\n\
server.systemTrayEnabled = false\n"
    );
    let text = "# top\r\nserver.port = 1\nserver.systemTrayEnabled = yes\n\n  tail  \n";
    let out = patch_safety_keys(text.to_string());
    let kept: Vec<&str> =
        out.lines().filter(|l| !l.trim_start().starts_with("server.") || l.contains("port")).collect();
    assert_eq!(kept, vec!["# top", "server.port = 1", "", "  tail  "]);
    assert!(out.starts_with("# top\r\nserver.port = 1\nserver.systemTrayEnabled = false\n\n  tail  \n"));
}

#[test]
fn the_first_line_of_each_safety_key_is_the_one_that_is_off() {
    let text = "server.webUIEnabled = true\nserver.webUIEnabled = false\n";
    let out = patch_safety_keys(text.to_string());
    for line in SAFETY_LINES {
        let key = line.split(' ').next().unwrap();
        let first = out.lines().find(|l| l.trim_start().starts_with(key)).unwrap();
        assert_eq!(first, line);
    }
}
