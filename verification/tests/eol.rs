use working_copy::eol::convert_eol;
use working_copy::eol::EolConversionMode;
use working_copy::eol::EolConversionSettings;
use working_copy::eol::EolGitAttributes;
use working_copy::eol::TargetEol;
use working_copy::eol::TargetEolStrategy;
use working_copy::eol::PROBE_LIMIT;
use working_copy::gitattributes::State;
use working_copy::platform::Platform;

/// Attribute states by name. A value is written behind `=`.
fn states(names: &str) -> Vec<State> {
    names
        .split(' ')
        .map(|name| match name {
            "set" => State::SetTrue,
            "unset" => State::Unset,
            "unspecified" => State::Unspecified,
            value => State::Value(value.strip_prefix('=').unwrap().as_bytes().to_vec()),
        })
        .collect()
}

fn modes(names: &str) -> Vec<EolConversionMode> {
    names
        .split(' ')
        .map(|name| match name {
            "none" => EolConversionMode::Disabled,
            "input" => EolConversionMode::Input,
            "input-output" => EolConversionMode::InputOutput,
            name => panic!("unknown mode {name}"),
        })
        .collect()
}

fn settings(
    use_git_attributes: bool,
    default_eol_attributes: EolConversionMode,
    eol_conversion_mode: EolConversionMode,
) -> EolConversionSettings {
    EolConversionSettings {
        use_git_attributes,
        default_eol_attributes,
        eol_conversion_mode,
    }
}

/// Checks all combinations of attributes.
fn each_attributes(text: &str, eol: &str, crlf: &str, check: impl Fn(EolGitAttributes)) {
    for text in states(text) {
        for eol in states(eol) {
            for crlf in states(crlf) {
                check(EolGitAttributes {
                    eol: eol.clone(),
                    text: text.clone(),
                    crlf: crlf.clone(),
                });
            }
        }
    }
}

/// Checks all combinations of attributes and settings.
fn each(
    text: &str,
    eol: &str,
    crlf: &str,
    default_eol_attributes: &str,
    eol_conversion_mode: &str,
    check: impl Fn(&TargetEolStrategy, EolGitAttributes),
) {
    for default_eol_attributes in modes(default_eol_attributes) {
        for eol_conversion_mode in modes(eol_conversion_mode) {
            let settings = settings(true, default_eol_attributes, eol_conversion_mode);
            let strategy = TargetEolStrategy::new(settings);
            each_attributes(text, eol, crlf, |attributes| check(&strategy, attributes));
        }
    }
}

#[test]
fn test_eol_conversion() {
    // LF text with no EOL conversion
    assert_eq!(convert_eol(b"a\n".to_vec(), TargetEol::PassThrough), b"a\n");
    // CRLF text with no EOL conversion
    assert_eq!(convert_eol(b"a\r\n".to_vec(), TargetEol::PassThrough), b"a\r\n");
    // No EOL text with no EOL conversion
    assert_eq!(convert_eol(b"a".to_vec(), TargetEol::PassThrough), b"a");
    // LF text with CRLF EOL conversion
    assert_eq!(convert_eol(b"a\n".to_vec(), TargetEol::Crlf), b"a\r\n");
    // CRLF text with CRLF EOL conversion
    assert_eq!(convert_eol(b"a\r\n".to_vec(), TargetEol::Crlf), b"a\r\n");
    // No EOL text with CRLF conversion
    assert_eq!(convert_eol(b"a".to_vec(), TargetEol::Crlf), b"a");
    // Empty text with CRLF EOL conversion
    assert_eq!(convert_eol(b"".to_vec(), TargetEol::Crlf), b"");
    // Text ends without EOL with CRLF EOL conversion
    assert_eq!(convert_eol(b"a\nb".to_vec(), TargetEol::Crlf), b"a\r\nb");
    // LF text with LF EOL conversion
    assert_eq!(convert_eol(b"a\n".to_vec(), TargetEol::Lf), b"a\n");
    // CRLF text with LF EOL conversion
    assert_eq!(convert_eol(b"a\r\n".to_vec(), TargetEol::Lf), b"a\n");
    // No EOL text with LF conversion
    assert_eq!(convert_eol(b"a".to_vec(), TargetEol::Lf), b"a");
    // Empty text with LF EOL conversion
    assert_eq!(convert_eol(b"".to_vec(), TargetEol::Lf), b"");
    // Text ends without EOL with LF EOL conversion
    assert_eq!(convert_eol(b"a\r\nb".to_vec(), TargetEol::Lf), b"a\nb");
}

fn probe_limit_input_crlf() -> Vec<u8> {
    let mut arr = vec![b'a'; PROBE_LIMIT + 1];
    let crlf = b"\r\n";
    arr[100..102].copy_from_slice(crlf);
    arr[500..502].copy_from_slice(crlf);
    arr[1000..1002].copy_from_slice(crlf);
    arr[4090..4092].copy_from_slice(crlf);
    arr[PROBE_LIMIT - 1..PROBE_LIMIT + 1].copy_from_slice(crlf);
    arr
}

fn probe_limit_input_lf() -> Vec<u8> {
    let text = String::from_utf8(probe_limit_input_crlf()).unwrap();
    text.replace("\r\n", "\n").into_bytes()
}

#[test]
fn test_eol_strategy_convert_eol_for_snapshot() {
    let check = |eol_conversion_mode: EolConversionMode, contents: &[u8], expected: &[u8]| {
        let settings = settings(false, EolConversionMode::Disabled, eol_conversion_mode);
        let strategy = TargetEolStrategy::new(settings);
        assert!(!strategy.needs_git_attributes());
        let output = strategy.convert_eol_for_snapshot(contents.to_vec(), EolGitAttributes::unspecified());
        assert_eq!(output, expected);
    };
    // None settings
    check(EolConversionMode::Disabled, b"\r\n", b"\r\n");
    // Input settings text input
    check(EolConversionMode::Input, b"\r\n", b"\n");
    // Input output settings text input
    check(EolConversionMode::InputOutput, b"\r\n", b"\n");
    // Input settings binary input
    check(EolConversionMode::Input, b"\0\r\n", b"\0\r\n");
    // Input output settings binary input with NUL
    check(EolConversionMode::InputOutput, b"\0\r\n", b"\0\r\n");
    // Input output settings binary input with lone CR
    check(EolConversionMode::InputOutput, b"\r\r\n", b"\r\r\n");
    // Input settings long binary input
    check(EolConversionMode::Input, &vec![0; 20 << 10], &vec![0; 20 << 10]);
    // Input settings with CRLF on probe boundary
    check(EolConversionMode::Input, &probe_limit_input_crlf(), &probe_limit_input_lf());
}

#[test]
fn test_eol_strategy_convert_eol_for_update() {
    let check = |eol_conversion_mode: EolConversionMode, contents: &[u8], expected: &[u8]| {
        let settings = settings(false, EolConversionMode::Disabled, eol_conversion_mode);
        let strategy = TargetEolStrategy::new(settings);
        assert!(!strategy.needs_git_attributes());
        let output = strategy.convert_eol_for_update(contents.to_vec(), EolGitAttributes::unspecified());
        assert_eq!(output, expected);
    };
    // None settings
    check(EolConversionMode::Disabled, b"\n", b"\n");
    // Input settings
    check(EolConversionMode::Input, b"\n", b"\n");
    // Input output settings text input
    check(EolConversionMode::InputOutput, b"\n", b"\r\n");
    // Input output settings binary input
    check(EolConversionMode::InputOutput, b"\0\n", b"\0\n");
    // Input output settings long binary input
    check(EolConversionMode::Input, &vec![0; 20 << 10], &vec![0; 20 << 10]);
}

#[test]
fn test_eol_gitattr_not_used() {
    for default_eol_attributes in modes("none input input-output") {
        for eol_conversion_mode in modes("none input input-output") {
            let settings = settings(false, default_eol_attributes, eol_conversion_mode);
            let strategy = TargetEolStrategy::new(settings);
            assert!(!strategy.needs_git_attributes());
            for contents in [b"\0".as_slice(), b"a\r\n".as_slice(), b"a\n".as_slice()] {
                // Attributes that ask for a conversion play no part.
                let convert = EolGitAttributes {
                    eol: State::Value(b"crlf".to_vec()),
                    text: State::SetTrue,
                    crlf: State::Unspecified,
                };
                let unspecified = EolGitAttributes::unspecified();
                assert_eq!(
                    strategy.convert_eol_for_update(contents.to_vec(), convert.clone()),
                    strategy.convert_eol_for_update(contents.to_vec(), unspecified.clone())
                );
                assert_eq!(
                    strategy.convert_eol_for_snapshot(contents.to_vec(), convert),
                    strategy.convert_eol_for_snapshot(contents.to_vec(), unspecified)
                );
            }
        }
    }
}

#[test]
fn test_eol_snapshot_should_convert_eol() {
    let check = |pairs: &'static [(&'static [u8], &'static [u8])]| {
        move |strategy: &TargetEolStrategy, attributes: EolGitAttributes| {
            for (contents, expect) in pairs {
                let output = strategy.convert_eol_for_snapshot(contents.to_vec(), attributes.clone());
                assert_eq!(output, *expect, "{attributes:?}");
            }
        }
    };
    // Text set
    each(
        "set",
        "set unset unspecified =wrong_value =lf =crlf",
        "set unset unspecified =wrong_value =input",
        "none input input-output",
        "none input input-output",
        check(&[(b"\0a\r\n", b"\0a\n"), (b"a\r\n", b"a\n")]),
    );
    // Text=auto text contents
    each(
        "=auto",
        "set unset unspecified =wrong_value =lf =crlf",
        "set unset unspecified =wrong_value =input",
        "none input input-output",
        "none input input-output",
        check(&[(b"a\r\n", b"a\n")]),
    );
    // !text eol=lf or eol=crlf
    each(
        "unspecified =wrong_value",
        "=lf =crlf",
        "set unset unspecified =wrong_value =input",
        "none input input-output",
        "none input input-output",
        check(&[(b"\0a\r\n", b"\0a\n"), (b"a\r\n", b"a\n")]),
    );
    // Eol=crlf or eol=input
    each(
        "unspecified =wrong_value",
        "set unset unspecified =wrong_value",
        "set =input",
        "none input input-output",
        "none input input-output",
        check(&[(b"\0a\r\n", b"\0a\n"), (b"a\r\n", b"a\n")]),
    );
    // Eol-conversion is input or input-output
    each(
        "unspecified =wrong_value",
        "set unset unspecified =wrong_value",
        "unspecified =wrong_value",
        "none input input-output",
        "input input-output",
        check(&[(b"a\r\n", b"a\n")]),
    );
}

#[test]
fn test_eol_update_should_convert_eol() {
    let check = |pairs: &'static [(&'static [u8], &'static [u8])]| {
        move |strategy: &TargetEolStrategy, attributes: EolGitAttributes| {
            for (contents, expect) in pairs {
                let output = strategy.convert_eol_for_update(contents.to_vec(), attributes.clone());
                assert_eq!(output, *expect, "{attributes:?}");
            }
        }
    };
    // Eol=crlf
    each(
        "set unspecified =wrong_value",
        "=crlf",
        "set unset unspecified =wrong_value =input",
        "none input input-output",
        "none input input-output",
        check(&[(b"\0a\n", b"\0a\r\n"), (b"a\n", b"a\r\n")]),
    );
    // Text set gitattributes-default-eol=input-output
    each(
        "set",
        "set unset unspecified =wrong_value",
        "set unset unspecified =wrong_value =input",
        "input-output",
        "none",
        check(&[(b"\0a\n", b"\0a\r\n"), (b"a\n", b"a\r\n")]),
    );
    // Text set eol-conversion=input-output
    each(
        "set",
        "set unset unspecified =wrong_value",
        "set unset unspecified =wrong_value =input",
        "none input input-output",
        "input-output",
        check(&[(b"\0a\n", b"\0a\r\n"), (b"a\n", b"a\r\n")]),
    );
    // Text=auto eol=crlf text contents
    each(
        "=auto",
        "=crlf",
        "set unset unspecified =wrong_value =input",
        "none input input-output",
        "none input input-output",
        check(&[(b"a\n", b"a\r\n")]),
    );
    // Text=auto gitattributes-default-eol=input-output text contents
    each(
        "=auto",
        "set unset unspecified =wrong_value",
        "set unset unspecified =wrong_value =input",
        "input-output",
        "none",
        check(&[(b"a\n", b"a\r\n")]),
    );
    // Text=auto eol-conversion=input-output text contents
    each(
        "=auto",
        "set unset unspecified =wrong_value",
        "set unset unspecified =wrong_value =input",
        "none input input-output",
        "input-output",
        check(&[(b"a\n", b"a\r\n")]),
    );
    // Crlf set gitattributes-default-eol=input-output
    each(
        "unspecified =wrong_value",
        "set unset unspecified =wrong_value",
        "set",
        "input-output",
        "none",
        check(&[(b"\0a\n", b"\0a\r\n"), (b"a\n", b"a\r\n")]),
    );
    // Crlf set eol-conversion=input-output
    each(
        "unspecified =wrong_value",
        "set unset unspecified =wrong_value",
        "set",
        "none input input-output",
        "input-output",
        check(&[(b"\0a\n", b"\0a\r\n"), (b"a\n", b"a\r\n")]),
    );
    // Eol-conversion=input-output text contents
    each(
        "unspecified =wrong_value",
        "set unset unspecified =wrong_value",
        "unspecified =wrong_value",
        "none input input-output",
        "input-output",
        check(&[(b"a\n", b"a\r\n")]),
    );
}

#[test]
fn test_eol_snapshot_should_not_convert_eol() {
    let check = |list: &'static [&'static [u8]]| {
        move |strategy: &TargetEolStrategy, attributes: EolGitAttributes| {
            for contents in list {
                let output = strategy.convert_eol_for_snapshot(contents.to_vec(), attributes.clone());
                assert_eq!(output, *contents, "{attributes:?}");
            }
        }
    };
    // Text=auto binary contents
    each(
        "=auto",
        "set unset unspecified =wrong_value =lf =crlf",
        "set unset unspecified =wrong_value =input",
        "none input input-output",
        "none input input-output",
        check(&[b"\0a\r\n"]),
    );
    // Eol-conversion is input or input-output binary contents
    each(
        "unspecified =wrong_value",
        "set unset unspecified =wrong_value",
        "unspecified =wrong_value",
        "none input input-output",
        "input input-output",
        check(&[b"\0a\r\n"]),
    );
    // -crlf
    each(
        "unspecified =wrong_value",
        "set unset unspecified =wrong_value",
        "unset",
        "none input input-output",
        "none input input-output",
        check(&[b"\0a\r\n", b"a\r\n"]),
    );
    // Eol-conversion=none
    each(
        "unspecified =wrong_value",
        "set unset unspecified =wrong_value",
        "unspecified =wrong_value",
        "none input input-output",
        "none",
        check(&[b"\0a\r\n", b"a\r\n"]),
    );
}

#[test]
fn test_eol_update_should_not_convert_eol() {
    let check = |list: &'static [&'static [u8]]| {
        move |strategy: &TargetEolStrategy, attributes: EolGitAttributes| {
            for contents in list {
                let output = strategy.convert_eol_for_update(contents.to_vec(), attributes.clone());
                assert_eq!(output, *contents, "{attributes:?}");
            }
        }
    };
    // Eol=lf
    each(
        "set unspecified =wrong_value =auto",
        "=lf",
        "set unset unspecified =wrong_value =input",
        "none input input-output",
        "none input input-output",
        check(&[b"a\n", b"\0a\n"]),
    );
    // Gitattributes-default-eol=input
    each(
        "set =auto",
        "set unset unspecified =wrong_value",
        "set unset unspecified =wrong_value =input",
        "input",
        "none",
        check(&[b"a\n", b"\0a\n"]),
    );
    // Eol-conversion=input
    each(
        "set =auto",
        "set unset unspecified =wrong_value",
        "set unset unspecified =wrong_value =input",
        "none input input-output",
        "input",
        check(&[b"a\n", b"\0a\n"]),
    );
    // -text
    each(
        "unset",
        "set unset unspecified =wrong_value =lf =crlf",
        "set unset unspecified =wrong_value =input",
        "none input input-output",
        "none input input-output",
        check(&[b"a\n", b"\0a\n"]),
    );
    // Crlf=input or -crlf
    each(
        "unspecified =wrong_value",
        "set unset unspecified =wrong_value",
        "unset =input",
        "none input input-output",
        "none input input-output",
        check(&[b"a\n", b"\0a\n"]),
    );
    // Eol-conversion is none or input
    each(
        "unspecified =wrong_value",
        "set unset unspecified =wrong_value",
        "unspecified =wrong_value",
        "none input input-output",
        "none input",
        check(&[b"a\n", b"\0a\n"]),
    );
    // Text=auto eol=crlf binary contents
    each(
        "=auto",
        "=crlf",
        "set unset unspecified =wrong_value =input",
        "none input input-output",
        "none input input-output",
        check(&[b"\0a\n"]),
    );
    // Text=auto gitattributes-default-eol is none or input-output binary contents
    each(
        "=auto",
        "set unset unspecified =wrong_value",
        "set unset unspecified =wrong_value =input",
        "none input-output",
        "none",
        check(&[b"\0a\n"]),
    );
    // Text=auto eol-conversion=input-ouput binary contents
    each(
        "=auto",
        "set unset unspecified =wrong_value",
        "set unset unspecified =wrong_value =input",
        "none input input-output",
        "input-output",
        check(&[b"\0a\n"]),
    );
    // Eol-conversion=input-ouput binary contents
    each(
        "unspecified =wrong_value",
        "set unset unspecified =wrong_value",
        "unspecified =wrong_value",
        "none input input-output",
        "input-output",
        check(&[b"\0a\n"]),
    );
    // Crlf set gitattributes-default-eol=input
    each(
        "unspecified =wrong_value",
        "set unset unspecified =wrong_value",
        "set",
        "input",
        "none",
        check(&[b"a\n", b"\0a\n"]),
    );
    // Crlf set eol-conversion=input
    each(
        "unspecified =wrong_value",
        "set unset unspecified =wrong_value",
        "set",
        "none input input-output",
        "input",
        check(&[b"a\n", b"\0a\n"]),
    );
}

fn native_strategy(platform: Platform) -> TargetEolStrategy {
    TargetEolStrategy::for_platform(
        settings(true, EolConversionMode::Disabled, EolConversionMode::Disabled),
        platform,
    )
}

#[test]
fn test_eol_update_eol_conversion_platform_specific() {
    for (platform, native_eol) in [(Platform::Unix, "\n"), (Platform::Windows, "\r\n")] {
        let strategy = native_strategy(platform);
        let check = |contents: &str, attributes: EolGitAttributes| {
            let output = strategy.convert_eol_for_update(contents.as_bytes().to_vec(), attributes);
            assert_eq!(output, contents.replace('\n', native_eol).into_bytes());
        };
        // Text=auto
        each_attributes(
            "=auto",
            "set unset unspecified =wrong_value",
            "set unset unspecified =wrong_value =input",
            |attributes| {
                check("a\n", attributes);
            },
        );
        // Text is set
        each_attributes(
            "set",
            "set unset unspecified =wrong_value",
            "set unset unspecified =wrong_value =input",
            |attributes| {
                check("a\n", attributes.clone());
                check("\0a\n", attributes);
            },
        );
        // Crlf is set
        each_attributes(
            "unspecified =wrong_value",
            "set unset unspecified =wrong_value",
            "set",
            |attributes| {
                check("a\n", attributes.clone());
                check("\0a\n", attributes);
            },
        );
    }
}

#[test]
fn test_eol_update_wont_read_platform_specific() {
    let strategy = native_strategy(Platform::Unix);
    // Text is set
    each_attributes(
        "set",
        "set unset unspecified =wrong_value",
        "set unset unspecified =wrong_value =input",
        |attributes| assert!(!strategy.reads_for_update(attributes)),
    );
    // Crlf is set
    each_attributes(
        "unspecified =wrong_value",
        "set unset unspecified =wrong_value",
        "set",
        |attributes| assert!(!strategy.reads_for_update(attributes)),
    );
}

#[test]
fn test_eol_wont_read() {
    // -text
    each(
        "unset",
        "set unset unspecified =wrong_value =lf =crlf",
        "set unset unspecified =wrong_value =input",
        "none input input-output",
        "none input input-output",
        |strategy, attributes| {
            assert!(!strategy.reads_for_snapshot(attributes.clone()));
            assert!(!strategy.reads_for_update(attributes));
        },
    );
    // -crlf
    each(
        "unspecified =wrong_value",
        "set unset unspecified =wrong_value",
        "unset",
        "none input input-output",
        "none input input-output",
        |strategy, attributes| {
            assert!(!strategy.reads_for_snapshot(attributes.clone()));
            assert!(!strategy.reads_for_update(attributes));
        },
    );
    // Eol-conversion=none
    each(
        "unspecified =wrong_value",
        "set unset unspecified =wrong_value",
        "unspecified =wrong_value",
        "none input input-output",
        "none",
        |strategy, attributes| {
            assert!(!strategy.reads_for_snapshot(attributes.clone()));
            assert!(!strategy.reads_for_update(attributes));
        },
    );
    // Eol=lf on update
    each(
        "set =auto unspecified =wrong_value",
        "=lf",
        "set unset unspecified =wrong_value =input",
        "none input input-output",
        "none input input-output",
        |strategy, attributes| assert!(!strategy.reads_for_update(attributes)),
    );
    // Gitattributes-default-eol=input on update
    each(
        "set =auto",
        "set unset unspecified =wrong_value",
        "set unset unspecified =wrong_value =input",
        "input",
        "none",
        |strategy, attributes| assert!(!strategy.reads_for_update(attributes)),
    );
    // Text set or text=auto eol-conversion=input on update
    each(
        "set =auto",
        "set unset unspecified =wrong_value",
        "set unset unspecified =wrong_value =input",
        "none input input-output",
        "input",
        |strategy, attributes| assert!(!strategy.reads_for_update(attributes)),
    );
    // Crlf=input on update
    each(
        "unspecified =wrong_value",
        "set unset unspecified =wrong_value",
        "=input",
        "none input input-output",
        "none input input-output",
        |strategy, attributes| assert!(!strategy.reads_for_update(attributes)),
    );
    // Not gitattr eol-conversion=input on update
    each(
        "unspecified =wrong_value",
        "set unset unspecified =wrong_value",
        "unspecified =wrong_value",
        "none input input-output",
        "input",
        |strategy, attributes| assert!(!strategy.reads_for_update(attributes)),
    );
    // Crlf set gitattributes-default-eol=input on update
    each(
        "unspecified =wrong_value",
        "set unset unspecified =wrong_value",
        "set",
        "input",
        "none",
        |strategy, attributes| assert!(!strategy.reads_for_update(attributes)),
    );
    // Crlf set eol-conversion=input on update
    each(
        "unspecified =wrong_value",
        "set unset unspecified =wrong_value",
        "set",
        "none input input-output",
        "input",
        |strategy, attributes| assert!(!strategy.reads_for_update(attributes)),
    );
}

fn text_set() -> EolGitAttributes {
    EolGitAttributes {
        eol: State::Value(b"crlf".to_vec()),
        text: State::SetTrue,
        crlf: State::Unspecified,
    }
}

fn text_auto() -> EolGitAttributes {
    EolGitAttributes {
        text: State::Value(b"auto".to_vec()),
        ..text_set()
    }
}

fn with_attributes() -> TargetEolStrategy {
    TargetEolStrategy::for_platform(
        EolConversionSettings {
            use_git_attributes: true,
            default_eol_attributes: EolConversionMode::Disabled,
            eol_conversion_mode: EolConversionMode::Disabled,
        },
        Platform::Unix,
    )
}

#[test]
fn stored_files_come_back_unchanged() {
    let strategy = with_attributes();
    for stored in [
        b"a\nb\n".to_vec(),
        b"a\rb\n".to_vec(),
        b"a\n\r".to_vec(),
        b"no line end".to_vec(),
        vec![],
    ] {
        for attributes in [text_set(), text_auto()] {
            let on_disk = strategy.convert_eol_for_update(stored.clone(), attributes.clone());
            assert_eq!(
                strategy.convert_eol_for_snapshot(on_disk, attributes),
                stored
            );
        }
    }
    // A binary file keeps even its CRLF line endings.
    let stored = b"a\r\n\0".to_vec();
    let on_disk = strategy.convert_eol_for_update(stored.clone(), text_auto());
    assert_eq!(on_disk, stored);
    assert_eq!(
        strategy.convert_eol_for_snapshot(on_disk, text_auto()),
        stored
    );
    // A text file does not.
    assert_eq!(
        strategy.convert_eol_for_snapshot(b"a\r\n".to_vec(), text_auto()),
        b"a\n"
    );
}

#[test]
fn lf_line_endings_stay() {
    let once = convert_eol(b"a\r\nb\n\rc".to_vec(), TargetEol::Lf);
    assert_eq!(once, b"a\nb\n\rc");
    assert_eq!(convert_eol(once.clone(), TargetEol::Lf), once);
    // Only the CR right before the LF belongs to the line ending.
    assert_eq!(convert_eol(b"a\r\r\n".to_vec(), TargetEol::Lf), b"a\r\n");
}

#[test]
fn conversion_twice_is_conversion_once() {
    let strategy = with_attributes();
    for contents in [
        b"a\nb\r\nc".to_vec(),
        b"a\rb\n".to_vec(),
        b"\r\r\n".to_vec(),
        b"a\0\r\n".to_vec(),
    ] {
        for attributes in [text_set(), text_auto()] {
            let once = strategy.convert_eol_for_update(contents.clone(), attributes.clone());
            assert_eq!(
                strategy.convert_eol_for_update(once.clone(), attributes.clone()),
                once
            );
            if contents != b"\r\r\n" {
                let once = strategy.convert_eol_for_snapshot(contents.clone(), attributes.clone());
                assert_eq!(
                    strategy.convert_eol_for_snapshot(once.clone(), attributes),
                    once
                );
            }
        }
    }
    assert_eq!(
        strategy.convert_eol_for_update(b"\r\r\n".to_vec(), text_set()),
        b"\r\r\n"
    );
}

#[test]
fn small_files_are_probed_in_full() {
    let strategy = with_attributes();
    let mut small = vec![b'a'; PROBE_LIMIT - 3];
    small.extend_from_slice(b"\n\0");
    assert_eq!(small.len(), PROBE_LIMIT - 1);
    assert_eq!(
        strategy.convert_eol_for_update(small.clone(), text_auto()),
        small
    );
    let mut large = vec![b'a'; PROBE_LIMIT - 1];
    large.extend_from_slice(b"\n\0");
    assert_ne!(
        strategy.convert_eol_for_update(large.clone(), text_auto()),
        large
    );
}

#[test]
fn conversion_setting_stands_for_attributes() {
    for (mode, eol) in [
        (EolConversionMode::Input, "lf"),
        (EolConversionMode::InputOutput, "crlf"),
    ] {
        for default_eol_attributes in [
            EolConversionMode::Disabled,
            EolConversionMode::Input,
            EolConversionMode::InputOutput,
        ] {
            let strategy = TargetEolStrategy::for_platform(
                EolConversionSettings {
                    use_git_attributes: true,
                    default_eol_attributes,
                    eol_conversion_mode: mode,
                },
                Platform::Windows,
            );
            let attributes = EolGitAttributes {
                eol: State::Value(eol.as_bytes().to_vec()),
                text: State::Value(b"auto".to_vec()),
                crlf: State::Unspecified,
            };
            assert_eq!(
                strategy.get_effective_eol_mode(EolGitAttributes::unspecified()),
                strategy.get_effective_eol_mode(attributes)
            );
        }
    }
}
