use flagpipe::config::ConditionKind;
use flagpipe::config::PostProcessor;
use flagpipe::config::PostProcessorCondition;
use flagpipe::matcher::get_post_processor;

fn svec(xs: &[&str]) -> Vec<String> {
    xs.iter().map(|x| x.to_string()).collect()
}

fn output_is_yq_processor() -> PostProcessor {
    PostProcessor {
        when_any: vec![
            PostProcessorCondition {
                flag: "-o".to_string(),
                kind: ConditionKind::Is("yq".to_string()),
            },
            PostProcessorCondition {
                flag: "--output".to_string(),
                kind: ConditionKind::Is("yq".to_string()),
            },
        ],
        set_flags: Some(svec(&["--output", "yaml"])),
        run: svec(&["yq", "-P", "."]),
    }
}

#[test]
fn test_first_match_wins_short_form() {
    let pps = vec![output_is_yq_processor()];
    let (cmd, new_args) = get_post_processor(&svec(&["-o", "yq"]), &pps);
    assert_eq!(new_args, svec(&["--output", "yaml"]));
    let cmd = cmd.unwrap();
    assert_eq!(cmd.program, "yq");
    assert_eq!(cmd.args, svec(&["-P", "."]));
}

#[test]
fn test_first_match_wins_long_form() {
    let pps = vec![output_is_yq_processor()];
    let (cmd, new_args) = get_post_processor(&svec(&["--output", "yq"]), &pps);
    assert_eq!(new_args, svec(&["--output", "yaml"]));
    let cmd = cmd.unwrap();
    assert_eq!(cmd.program, "yq");
    assert_eq!(cmd.args, svec(&["-P", "."]));
}

#[test]
fn test_is_eq_form_token_matches() {
    let pps = vec![output_is_yq_processor()];
    let (cmd, new_args) = get_post_processor(&svec(&["-o=yq", "pods"]), &pps);
    assert_eq!(new_args, svec(&["--output", "yaml", "pods"]));
    assert!(cmd.is_some());
}

#[test]
fn test_value_capture_from_next_token() {
    let pps = vec![PostProcessor {
        when_any: vec![PostProcessorCondition {
            flag: "--yq".to_string(),
            kind: ConditionKind::IsNot("".to_string()),
        }],
        set_flags: Some(svec(&["--output", "yaml"])),
        run: svec(&["yq", "-P", "$VALUE"]),
    }];
    let (cmd, new_args) = get_post_processor(&svec(&["--yq", "report.tmpl", "rest"]), &pps);
    assert_eq!(new_args, svec(&["--output", "yaml", "rest"]));
    let cmd = cmd.unwrap();
    assert_eq!(cmd.program, "yq");
    assert_eq!(cmd.args, svec(&["-P", "report.tmpl"]));
}

#[test]
fn test_value_capture_from_eq_form() {
    let pps = vec![PostProcessor {
        when_any: vec![PostProcessorCondition {
            flag: "--yq".to_string(),
            kind: ConditionKind::IsNot("".to_string()),
        }],
        set_flags: None,
        run: svec(&["yq", "-r", "$VALUE"]),
    }];
    let (cmd, new_args) = get_post_processor(&svec(&["--yq=.items", "after"]), &pps);
    assert_eq!(new_args, svec(&["after"]));
    let cmd = cmd.unwrap();
    assert_eq!(cmd.program, "yq");
    assert_eq!(cmd.args, svec(&["-r", ".items"]));
}

#[test]
fn test_is_set_consumes_only_the_flag() {
    let pps = vec![PostProcessor {
        when_any: vec![PostProcessorCondition {
            flag: "-o".to_string(),
            kind: ConditionKind::IsSet,
        }],
        set_flags: Some(svec(&["--output", "yaml"])),
        run: vec![],
    }];
    let (cmd, new_args) = get_post_processor(&svec(&["-o", "foo", "bar"]), &pps);
    assert!(cmd.is_none());
    assert_eq!(new_args, svec(&["--output", "yaml", "foo", "bar"]));
}

#[test]
fn test_no_match_is_identity() {
    let pps = vec![output_is_yq_processor()];
    let args = svec(&["get", "pods", "-o", "json"]);
    let (cmd, new_args) = get_post_processor(&args, &pps);
    assert!(cmd.is_none());
    assert_eq!(new_args, args);
}

#[test]
fn test_empty_args_is_identity() {
    let pps = vec![output_is_yq_processor()];
    let (cmd, new_args) = get_post_processor(&Vec::new(), &pps);
    assert!(cmd.is_none());
    assert!(new_args.is_empty());
}

#[test]
fn test_earliest_position_wins() {
    let pps = vec![PostProcessor {
        when_any: vec![PostProcessorCondition {
            flag: "-o".to_string(),
            kind: ConditionKind::IsSet,
        }],
        set_flags: Some(svec(&["-O"])),
        run: vec![],
    }];
    let (cmd, new_args) = get_post_processor(&svec(&["x", "-o", "y", "-o"]), &pps);
    assert!(cmd.is_none());
    assert_eq!(new_args, svec(&["x", "-O", "y", "-o"]));
}

#[test]
fn test_first_processor_in_order_wins() {
    let first = PostProcessor {
        when_any: vec![PostProcessorCondition {
            flag: "-o".to_string(),
            kind: ConditionKind::IsSet,
        }],
        set_flags: Some(svec(&["first"])),
        run: vec![],
    };
    let second = PostProcessor {
        when_any: vec![PostProcessorCondition {
            flag: "-o".to_string(),
            kind: ConditionKind::IsSet,
        }],
        set_flags: Some(svec(&["second"])),
        run: vec![],
    };
    let (cmd, new_args) = get_post_processor(&svec(&["-o"]), &vec![first, second]);
    assert!(cmd.is_none());
    assert_eq!(new_args, svec(&["first"]));
}

#[test]
fn test_is_not_rejects_exact_value() {
    let pps = vec![PostProcessor {
        when_any: vec![PostProcessorCondition {
            flag: "--jq".to_string(),
            kind: ConditionKind::IsNot("".to_string()),
        }],
        set_flags: None,
        run: svec(&["jq", "-r", "$VALUE"]),
    }];
    let args = svec(&["--jq", ""]);
    let (cmd, new_args) = get_post_processor(&args, &pps);
    assert!(cmd.is_none());
    assert_eq!(new_args, args);
}

#[test]
fn test_missing_next_token_counts_as_empty() {
    let pps = vec![PostProcessor {
        when_any: vec![PostProcessorCondition {
            flag: "--jq".to_string(),
            kind: ConditionKind::IsNot("".to_string()),
        }],
        set_flags: None,
        run: svec(&["jq", "-r", "$VALUE"]),
    }];
    let args = svec(&["--jq"]);
    let (cmd, new_args) = get_post_processor(&args, &pps);
    assert!(cmd.is_none());
    assert_eq!(new_args, args);
}

#[test]
fn test_token_count_preserved_by_alias_rewrite() {
    let flag_aliases = vec![
        flagpipe::config::FlagAlias {
            flag: "--context".to_string(),
            alias: "-x".to_string(),
        },
        flagpipe::config::FlagAlias {
            flag: "--namespace".to_string(),
            alias: "-n".to_string(),
        },
    ];
    let args = svec(&["-x", "dev", "-n=kube-system", "get", "--", "-x"]);
    let new_args = flagpipe::alias::configure_flag_aliases(&flag_aliases, &args);
    assert_eq!(new_args.len(), args.len());
    assert_eq!(
        new_args,
        svec(&["--context", "dev", "--namespace=kube-system", "get", "--", "-x"])
    );
}
