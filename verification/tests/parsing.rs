use wasmtime_run::error::{Reason, Problem};
use wasmtime_run::parse::{
    given_interval, is_profile_readable, parse_env_var, parse_graphs, parse_map_dirs,
    parse_preloads, parse_profile, try_parse_profile, Profile, ProfilingStrategy,
};
use wasmtime_run::span::{is_readable, parse_dur, try_parse_dur, Span};
use wasmtime_run::text::{characters, contains, cut, join, join3, same, split};

fn pair(a: &str, b: &str) -> (String, String) {
    (a.to_string(), b.to_string())
}

#[test]
fn env_var_with_a_value() {
    assert_eq!(
        parse_env_var("FOO=BAR"),
        Ok(("FOO".to_string(), Some("BAR".to_string())))
    );
}

#[test]
fn env_var_to_inherit() {
    assert_eq!(parse_env_var("FOO"), Ok(("FOO".to_string(), None)));
    assert_eq!(parse_env_var(""), Ok((String::new(), None)));
}

#[test]
fn env_var_keeps_further_equals_signs() {
    assert_eq!(
        parse_env_var("A=b=c="),
        Ok(("A".to_string(), Some("b=c=".to_string())))
    );
    assert_eq!(
        parse_env_var("=x"),
        Ok((String::new(), Some("x".to_string())))
    );
    assert_eq!(
        parse_env_var("x="),
        Ok(("x".to_string(), Some(String::new())))
    );
}

#[test]
fn name_and_value_are_read_back() {
    for (name, value) in [("a", "b"), ("", ""), ("päth", "=="), ("x", "日本")] {
        let text = format!("{}={}", name, value);
        assert_eq!(
            parse_env_var(&text),
            Ok((name.to_string(), Some(value.to_string())))
        );
        assert_eq!(parse_preloads(&text), Ok(pair(name, value)));
    }
}

#[test]
fn map_dirs_with_one_double_colon() {
    assert_eq!(parse_map_dirs("/guest::/host"), Ok(pair("/guest", "/host")));
    assert_eq!(parse_map_dirs("::"), Ok(pair("", "")));
    assert_eq!(parse_map_dirs("a:::b"), Ok(pair("a", ":b")));
    assert_eq!(parse_map_dirs("a:b::c:d"), Ok(pair("a:b", "c:d")));
}

#[test]
fn map_dirs_without_one_double_colon() {
    for text in ["", "a", "a:b", "a::b::c", "::::", "a::::b"] {
        let refused = parse_map_dirs(text);
        assert_eq!(refused, Err(Problem::DoubleColon));
        assert_eq!(
            refused.unwrap_err().message(),
            "must contain exactly one double colon ('::')"
        );
    }
}

#[test]
fn graphs_are_pairs_too() {
    assert_eq!(
        parse_graphs("openvino::/foo/bar"),
        Ok(pair("openvino", "/foo/bar"))
    );
    assert_eq!(parse_graphs("openvino:/foo/bar"), Err(Problem::DoubleColon));
    assert_eq!(parse_graphs("a::b::c"), Err(Problem::DoubleColon));
}

#[test]
fn preloads_have_a_name_and_a_path() {
    assert_eq!(parse_preloads("env=lib.wasm"), Ok(pair("env", "lib.wasm")));
    assert_eq!(parse_preloads("env=a=b"), Ok(pair("env", "a=b")));
    let refused = parse_preloads("lib.wasm");
    assert_eq!(refused, Err(Problem::Equals));
    assert_eq!(
        refused.unwrap_err().message(),
        "must contain exactly one equals character ('=')"
    );
}

#[test]
fn durations_without_a_unit_are_seconds() {
    assert_eq!(parse_dur("1"), Ok(Span { secs: 1, nanos: 0 }));
    assert_eq!(parse_dur("0"), Ok(Span { secs: 0, nanos: 0 }));
    assert_eq!(parse_dur("+7"), Ok(Span { secs: 7, nanos: 0 }));
    assert_eq!(
        parse_dur("18446744073709551615"),
        Ok(Span {
            secs: u64::MAX,
            nanos: 0
        })
    );
}

#[test]
fn durations_with_units() {
    assert_eq!(parse_dur("3s"), Ok(Span { secs: 3, nanos: 0 }));
    assert_eq!(
        parse_dur("300ms"),
        Ok(Span {
            secs: 0,
            nanos: 300_000_000
        })
    );
    assert_eq!(
        parse_dur("2min 30s"),
        Ok(Span {
            secs: 150,
            nanos: 0
        })
    );
}

#[test]
fn malformed_durations() {
    let complaint = |text: &str| match parse_dur(text) {
        Err(Problem::Duration(t)) => t,
        other => panic!("{:?}", other),
    };
    assert_eq!(
        complaint("3 apples"),
        humantime::parse_duration("3 apples").unwrap_err().to_string()
    );
    assert_eq!(
        complaint(""),
        humantime::parse_duration("").unwrap_err().to_string()
    );
    let e: Reason = Problem::Duration("why".to_string());
    assert_eq!(e.message(), "why");
}

#[test]
fn readable_durations() {
    assert!(is_readable("3s"));
    assert!(is_readable("18446744073709551615"));
    assert!(is_readable("12345678901234567s 1ms"));
    assert!(is_readable("1234567890123456789s"));
    assert!(is_readable("18446744073709551616"));
    assert!(is_readable("1234567890123456789s 1ms"));
    assert!(is_readable("12345678901234567890\u{b5}s1ns"));
    assert_eq!(
        parse_dur("18446744073709551615.5s"),
        Ok(Span {
            secs: u64::MAX,
            nanos: 500_000_000
        })
    );
    assert!(matches!(
        parse_dur("18446744073709551616"),
        Err(Problem::Duration(_))
    ));
}

#[test]
fn long_durations_are_read() {
    for text in [
        "10000000000ns 10000000000ns",
        "1 000 000 000 000ms 2h37min",
        "1234567890123456789s 1ms",
        "18446744073709551615s 0.999s",
        "18446744073709551615s 1s",
        "18446744073709551615s 2000ms",
        "18446744073709551614s 1000ms",
        "18446744073709551615s 1000ms.",
        "18446744073709551615s 1000.x5ms",
        "18446744073709551615s 0.5s x",
        "18446744073709551615s apples 1000ms",
        "99999999999999999999s 1000ms 1000ms",
    ] {
        let expected = humantime::parse_duration(text);
        let parsed = try_parse_dur(text).unwrap();
        assert_eq!(parsed, parse_dur(text));
        match (parsed, expected) {
            (Ok(span), Ok(d)) => {
                assert_eq!((span.secs, span.nanos), (d.as_secs(), d.subsec_nanos()));
            }
            (Err(e), Err(expected)) => assert_eq!(e.message(), expected.to_string()),
            other => panic!("{:?}", other),
        }
    }
    assert_eq!(
        parse_dur("10000000000ns 10000000000ns"),
        Ok(Span { secs: 20, nanos: 0 })
    );
}

#[test]
fn numbers_are_added_where_white_space_follows() {
    for c in '\0'..='\u{ffff}' {
        if !c.is_ascii_digit() {
            let text = format!("18446744073709551615s{}1000ms", c);
            assert_eq!(is_readable(&text), !c.is_whitespace(), "{:?}", c);
        }
    }
}

#[test]
fn durations_just_past_counting_are_not_read() {
    for text in [
        "18446744073709551615s 1000ms",
        "18446744073709551615s1000ms",
        "18446744073709551615s 1000ms and more",
        "18446744073709551614s 1000ms 1000ms",
        "18446744073709551615.5s 0.5s",
        "18446744073709551615s 999ms 1ms",
        "18446744073709551615s 1000000.5us",
        "18446744073709551615s 1 000 000 000ns",
    ] {
        assert!(!is_readable(text), "{}", text);
        assert_eq!(try_parse_dur(text), None);
        let profile = format!("guest,a,{}", text);
        assert_eq!(try_parse_profile(&profile), None);
        assert!(!is_profile_readable(&profile));
        assert_eq!(given_interval(&profile), Some(pair("a", text)));
    }
}

#[test]
fn digits_with_an_s_are_seconds() {
    for digits in ["0", "7", "0042", "18446744073709551615"] {
        let text = format!("{}s", digits);
        assert_eq!(parse_dur(&text), parse_dur(digits));
        assert_eq!(try_parse_dur(&text), Some(parse_dur(digits)));
    }
    assert!(parse_dur("18446744073709551616s").is_err());
}

#[test]
fn intervals_of_profiles() {
    assert_eq!(given_interval("guest,a,1s"), Some(pair("a", "1s")));
    assert_eq!(given_interval("guest,a"), None);
    assert_eq!(given_interval("perfmap,a,1s"), None);
    assert_eq!(
        try_parse_profile("guest,a,1s"),
        Some(Ok(Profile::Guest {
            path: "a".to_string(),
            interval: Span { secs: 1, nanos: 0 }
        }))
    );
    assert_eq!(
        try_parse_profile("nothing"),
        Some(Err(Problem::UnknownProfile("nothing".to_string())))
    );
}

#[test]
fn native_profiles() {
    assert_eq!(
        parse_profile("perfmap"),
        Ok(Profile::Native(ProfilingStrategy::PerfMap))
    );
    assert_eq!(
        parse_profile("jitdump"),
        Ok(Profile::Native(ProfilingStrategy::JitDump))
    );
    assert_eq!(
        parse_profile("vtune"),
        Ok(Profile::Native(ProfilingStrategy::VTune))
    );
}

#[test]
fn guest_profiles() {
    let short = Span {
        secs: 0,
        nanos: 10_000_000,
    };
    assert_eq!(
        parse_profile("guest"),
        Ok(Profile::Guest {
            path: "wasmtime-guest-profile.json".to_string(),
            interval: short
        })
    );
    assert_eq!(
        parse_profile("guest,out.json"),
        Ok(Profile::Guest {
            path: "out.json".to_string(),
            interval: short
        })
    );
    assert_eq!(
        parse_profile("guest,out.json,5ms"),
        Ok(Profile::Guest {
            path: "out.json".to_string(),
            interval: Span {
                secs: 0,
                nanos: 5_000_000
            }
        })
    );
    assert_eq!(
        parse_profile("guest,"),
        Ok(Profile::Guest {
            path: String::new(),
            interval: short
        })
    );
}

#[test]
fn unknown_profiles() {
    for text in ["", "perf", "perfmap,x", "guest,a,1s,b", "Guest", "vtune,a,1s"] {
        assert!(is_profile_readable(text));
        let refused = parse_profile(text);
        assert_eq!(refused, Err(Problem::UnknownProfile(text.to_string())));
        assert_eq!(
            refused.unwrap_err().message(),
            format!("unknown profiling strategy: {}", text)
        );
    }
    assert!(matches!(
        parse_profile("guest,a,soon"),
        Err(Problem::Duration(_))
    ));
    assert!(!is_profile_readable("guest,a,18446744073709551615s 1000ms"));
    assert!(is_profile_readable("other,a,18446744073709551615s 1000ms"));
}

#[test]
fn texts_are_searched_and_cut() {
    assert_eq!(characters("aé"), vec!['a', 'é']);
    assert!(contains("a%b", "%"));
    assert!(!contains("ab", "%"));
    assert!(contains("ab", ""));
    assert_eq!(cut("a=b=c", "="), Some(pair("a", "b=c")));
    assert_eq!(cut("abc", "="), None);
    assert!(same("x", "x"));
    assert!(!same("x", "y"));
    assert_eq!(join("a", "b"), "ab");
    assert_eq!(join3("a", "b", "c"), "abc");
}

#[test]
fn pieces_make_the_text() {
    for (text, separator) in [("a,b,,c", ","), ("", ","), ("a:::b", "::"), ("x", "yy")] {
        let parts = split(text, separator);
        assert_eq!(parts.join(separator), text);
        for part in &parts {
            assert!(!contains(part, separator));
        }
        let plain: Vec<&str> = text.split(separator).collect();
        assert_eq!(parts, plain);
    }
}
