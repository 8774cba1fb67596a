use flagpipe::alias::configure_flag_aliases;
use flagpipe::config::CommandConfig;
use flagpipe::config::ConditionKind;
use flagpipe::config::ConfigFile;
use flagpipe::config::FlagAlias;
use flagpipe::config::PostProcessor;
use flagpipe::config::PostProcessorCondition;

fn get_example_config() -> ConfigFile {
    let config = ConfigFile {
        commands: vec![CommandConfig {
            name: "kubectl".to_string(),
            exe: "kubectl".to_string(),
            flags_aliases: vec![FlagAlias {
                flag: "kubectl".to_string(),
                alias: "x".to_string(),
            }],
            post_processors: vec![PostProcessor {
                when_any: vec![
                    PostProcessorCondition {
                        flag: "--output".to_string(),
                        kind: ConditionKind::Is("yq".to_string()),
                    },
                    PostProcessorCondition {
                        flag: "-o".to_string(),
                        kind: ConditionKind::Is("yq".to_string()),
                    },
                ],
                set_flags: Some(vec!["--output".to_string(), "yaml".to_string()]),
                run: vec!["yq".to_string(), "-P".to_string(), ".".to_string()],
            }],
        }],
    };
    config
}

#[test]
fn test_get_command() {
    let config = get_example_config();
    let command = config.get_command("kubectl").unwrap();
    assert_eq!(command.name, "kubectl");
}

#[test]
fn test_unable_to_get_command() {
    let config = get_example_config();
    assert!(config.get_command("missing").is_none());
}

#[test]
fn test_use_flag_aliases() {
    let flag_aliases = vec![FlagAlias {
        flag: "--context".to_string(),
        alias: "-x".to_string(),
    }];
    let args = vec!["-x".to_string(), "example".to_string()];
    let new_args = configure_flag_aliases(&flag_aliases, &args);
    assert_eq!(
        new_args,
        vec!["--context".to_string(), "example".to_string()]
    );
}

#[test]
fn test_stop_parsing_args() {
    let flag_aliases = vec![FlagAlias {
        flag: "--context".to_string(),
        alias: "-x".to_string(),
    }];
    let args = vec!["-x".to_string(), "--".to_string(), "-x".to_string()];
    let new_args = configure_flag_aliases(&flag_aliases, &args);
    assert_eq!(
        new_args,
        vec!["--context".to_string(), "--".to_string(), "-x".to_string(),]
    );
}

#[test]
fn test_short_equals() {
    let flag_aliases = vec![FlagAlias {
        flag: "--context".to_string(),
        alias: "-x".to_string(),
    }];
    let args = vec!["-x=example".to_string()];
    let new_args = configure_flag_aliases(&flag_aliases, &args);
    assert_eq!(new_args, vec!["--context=example".to_string()]);
}

#[test]
fn test_do_not_make_mistakes() {
    let flag_aliases = vec![FlagAlias {
        flag: "--context".to_string(),
        alias: "-x".to_string(),
    }];
    let args = vec!["-xcalibur=example".to_string()];
    let new_args = configure_flag_aliases(&flag_aliases, &args);
    assert_eq!(new_args, vec!["-xcalibur=example".to_string()]);
}
