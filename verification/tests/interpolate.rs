//! Interpolation of variables and secrets.

use infisical::interpolate::{Failure, Interpolator, Place};
use infisical::reference::unresolved_provider_token;
use infisical::resource::{
    Build, BuildConfig, Deployment, DeploymentConfig, EnvironmentVar, Log, Repo, RepoConfig, Stack,
    StackConfig, SystemCommand,
};
use infisical::string_map::StringMap;

fn map(entries: &[(&str, &str)]) -> StringMap {
    let mut map = StringMap::new();
    for (key, value) in entries {
        map.insert(key.to_string(), value.to_string());
    }
    map
}

fn interpolate(target: &str, secrets: &[(&str, &str)]) -> Result<String, String> {
    let secrets = map(secrets);
    let mut interpolator = Interpolator::new(None, &secrets);
    let mut target = target.to_string();
    match interpolator.interpolate_string(&mut target) {
        Ok(_) => Ok(target),
        Err(error) => Err(error.message()),
    }
}

#[test]
fn resolves_an_infisical_token() {
    let out = interpolate(
        "DB_PASSWORD=[[infisical://apps/prod/DB_PASSWORD]]",
        &[("infisical://apps/prod/DB_PASSWORD", "hunter2")],
    )
    .expect("should resolve");
    assert_eq!(out, "DB_PASSWORD=hunter2");
}

#[test]
fn refuses_to_pass_through_an_unresolved_infisical_token() {
    // The whole point of the guard: without it the token is left verbatim and
    // the literal string would be deployed as the password.
    let msg = interpolate("DB_PASSWORD=[[infisical://apps/prod/MISSING]]", &[])
        .expect_err("must not silently pass through");
    assert!(
        msg.contains("infisical://apps/prod/MISSING"),
        "error should name the offending reference, got: {msg}"
    );
}

#[test]
fn unresolved_ordinary_variable_still_passes_through() {
    let out = interpolate("FOO=[[NOT_A_PROVIDER_TOKEN]]", &[])
        .expect("an ordinary reference should pass through");
    assert_eq!(out, "FOO=[[NOT_A_PROVIDER_TOKEN]]");
}

#[test]
fn escaped_token_is_not_treated_as_a_reference() {
    // '[[[x]]]' is the escape and yields the literal '[[x]]'. That output
    // contains the prefix but was never a live reference, so the guard must
    // not fire on it.
    let out = interpolate("LITERAL=[[[infisical://apps/prod/KEY]]]", &[])
        .expect("escaped token should be allowed");
    assert_eq!(out, "LITERAL=[[infisical://apps/prod/KEY]]");
}

#[test]
fn resolves_several_references_in_one_string() {
    let out = interpolate(
        "A=[[infisical://apps/prod/A]] B=[[infisical://cicd/prod/B]] C=plain",
        &[
            ("infisical://apps/prod/A", "one"),
            ("infisical://cicd/prod/B", "two"),
        ],
    )
    .expect("should resolve both");
    assert_eq!(out, "A=one B=two C=plain");
}

#[test]
fn one_missing_reference_fails_even_when_others_resolve() {
    let msg = interpolate(
        "A=[[infisical://apps/prod/A]] B=[[infisical://apps/prod/MISSING]]",
        &[("infisical://apps/prod/A", "one")],
    )
    .expect_err("a single missing reference must fail the whole target");
    assert!(msg.contains("apps/prod/MISSING"));
}

#[test]
fn escape_does_not_survive_the_variables_pass() {
    // When a variables map is present, interpolation runs twice, and the first
    // pass already consumes the '[[[x]]]' escape into '[[x]]'. The second pass
    // therefore sees a live reference. Failing closed is the safe direction.
    let variables = StringMap::new();
    let secrets = StringMap::new();
    let mut interpolator = Interpolator::new(Some(&variables), &secrets);
    let mut target = "L=[[[infisical://apps/prod/KEY]]]".to_string();
    assert!(interpolator.interpolate_string(&mut target).is_err());
    assert_eq!(target, "L=[[[infisical://apps/prod/KEY]]]");
}

#[test]
fn untouched_input_without_tokens_is_unchanged() {
    let out = interpolate("PLAIN=value", &[]).expect("should pass");
    assert_eq!(out, "PLAIN=value");
}

#[test]
fn empty_target_is_left_alone() {
    assert_eq!(interpolate("", &[("A", "1")]), Ok(String::new()));
}

#[test]
fn unresolved_reference_is_named_in_full() {
    let msg = interpolate("P=[[infisical://a/b/C]]", &[]).unwrap_err();
    assert_eq!(
        msg,
        "unresolved secret reference 'infisical://a/b/C'. The Infisical secret provider did not \
         supply this key, so it would have been left uninterpolated. Refusing to deploy a literal \
         token in place of a secret value. Check that the provider is enabled and healthy, and \
         that the project alias, environment and key in the reference all exist."
    );
}

#[test]
fn unclosed_reference_is_an_error_of_the_secrets_pass() {
    let secrets = StringMap::new();
    let mut interpolator = Interpolator::new(None, &secrets);
    let mut target = "a [[A]] b [[B".to_string();
    let error = match interpolator.interpolate_string(&mut target) {
        Ok(_) => panic!("must fail"),
        Err(error) => error,
    };
    assert_eq!(error.place, Place::Target);
    assert!(matches!(error.failure, Failure::Secrets { .. }));
    assert_eq!(
        error.message(),
        "failed to interpolate secrets into target 'a [[A]] b [[B': no closing tags for variable at \
         index 1"
    );
    assert_eq!(target, "a [[A]] b [[B");
}

#[test]
fn double_opener_is_an_error_of_the_variables_pass() {
    let variables = StringMap::new();
    let secrets = StringMap::new();
    let mut interpolator = Interpolator::new(Some(&variables), &secrets);
    let mut target = "x[[[[y]]".to_string();
    let error = match interpolator.interpolate_string(&mut target) {
        Ok(_) => panic!("must fail"),
        Err(error) => error,
    };
    assert!(matches!(error.failure, Failure::Variables { .. }));
    assert_eq!(
        error.message(),
        "failed to interpolate variables into target 'x[[[[y]]': found double opener '[[[[', \
         formatting will fail"
    );
}

#[test]
fn segment_outside_ascii_is_refused() {
    let msg = interpolate("[[\u{e9}]]", &[("\u{e9}", "v")]).unwrap_err();
    assert_eq!(
        msg,
        "failed to interpolate secrets into target '[[\u{e9}]]': found double opener '[[[[', \
         formatting will fail"
    );
}

#[test]
fn second_closer_of_an_escape_is_dropped() {
    assert_eq!(interpolate("[[[a]]] b]]] c]]]", &[]), Ok("[[a]] b c".to_string()));
    assert_eq!(interpolate("[[[a", &[]), Ok("[[a".to_string()));
}

#[test]
fn text_behind_a_reference_keeps_its_closers() {
    assert_eq!(interpolate("[[A]] x]] y", &[("A", "1")]), Ok("1 x]] y".to_string()));
    assert_eq!(interpolate("[[]]", &[("", "empty")]), Ok("empty".to_string()));
}

#[test]
fn variables_come_before_secrets() {
    let variables = map(&[("WHICH", "[[infisical://apps/prod/A]]")]);
    let secrets = map(&[("infisical://apps/prod/A", "one")]);
    let mut interpolator = Interpolator::new(Some(&variables), &secrets);
    let mut target = "v=[[WHICH]]".to_string();
    assert!(interpolator.interpolate_string(&mut target).is_ok());
    assert_eq!(target, "v=one");
    assert!(interpolator.secret_replacers.contains("one", "infisical://apps/prod/A"));
    assert_eq!(interpolator.secret_replacers.pairs().len(), 1);
}

#[test]
fn failure_leaves_text_and_records_alone() {
    let secrets = map(&[("infisical://apps/prod/A", "one")]);
    let mut interpolator = Interpolator::new(None, &secrets);
    let text = "[[infisical://apps/prod/A]] [[infisical://apps/prod/B]]";
    let mut target = text.to_string();
    assert!(interpolator.interpolate_string(&mut target).is_err());
    assert_eq!(target, text);
    assert!(interpolator.secret_replacers.is_empty());
}

#[test]
fn guard_finds_the_first_missing_reference() {
    let secrets = map(&[("infisical://a/b/KNOWN", "v")]);
    let find = |text: &str| unresolved_provider_token(text, &secrets);
    assert_eq!(find("[[infisical://a/b/KNOWN]]"), None);
    assert_eq!(find("[[OTHER]] [[infisical://a/b/X]] [[infisical://a/b/Y]]"),
        Some("infisical://a/b/X".to_string()));
    assert_eq!(find("[[infisical://a/b/X"), None);
    assert_eq!(find("[[[infisical://a/b/X]]]"), None);
    assert_eq!(find("infisical://a/b/X]]"), None);
    assert_eq!(find("[[ infisical://a/b/X]]"), None);
}

fn command(command: &str) -> SystemCommand {
    SystemCommand { command: command.to_string() }
}

fn stack(skip: bool) -> Stack {
    Stack {
        config: StackConfig {
            skip_secret_interp: skip,
            file_contents: "f [[A]]".to_string(),
            environment: "e [[A]]".to_string(),
            pre_deploy: command("pre [[A]]"),
            post_deploy: command("post [[A]]"),
            compose_cmd_wrapper: "wrap [[A]]".to_string(),
            extra_args: vec!["x [[A]]".to_string(), "y".to_string()],
            build_extra_args: vec!["b [[A]]".to_string()],
        },
    }
}

#[test]
fn every_text_of_a_stack_is_interpolated() {
    let secrets = map(&[("A", "1")]);
    let mut stack = stack(false);
    assert!(Interpolator::new(None, &secrets).interpolate_stack(&mut stack).is_ok());
    assert_eq!(stack.config.file_contents, "f 1");
    assert_eq!(stack.config.environment, "e 1");
    assert_eq!(stack.config.pre_deploy.command, "pre 1");
    assert_eq!(stack.config.post_deploy.command, "post 1");
    assert_eq!(stack.config.compose_cmd_wrapper, "wrap 1");
    assert_eq!(stack.config.extra_args, vec!["x 1".to_string(), "y".to_string()]);
    assert_eq!(stack.config.build_extra_args, vec!["b 1".to_string()]);
}

#[test]
fn skipped_stack_is_left_alone() {
    let secrets = map(&[("A", "1")]);
    let mut stack = stack(true);
    assert!(Interpolator::new(None, &secrets).interpolate_stack(&mut stack).is_ok());
    assert_eq!(stack.config.file_contents, "f [[A]]");
    assert_eq!(stack.config.build_extra_args, vec!["b [[A]]".to_string()]);
}

#[test]
fn nothing_after_a_failing_text_of_a_stack_is_touched() {
    let secrets = map(&[("A", "1")]);
    let mut stack = stack(false);
    stack.config.extra_args[1] = "[[infisical://a/b/C]]".to_string();
    let mut interpolator = Interpolator::new(None, &secrets);
    let error = match interpolator.interpolate_stack(&mut stack) {
        Ok(_) => panic!("must fail"),
        Err(error) => error,
    };
    assert_eq!(error.place, Place::ExtraArg);
    assert!(error
        .message()
        .starts_with("failed interpolation into extra arg: unresolved secret reference"));
    assert_eq!(stack.config.extra_args[0], "x 1");
    assert_eq!(stack.config.extra_args[1], "[[infisical://a/b/C]]");
    assert_eq!(stack.config.build_extra_args[0], "b [[A]]");
}

#[test]
fn every_text_of_a_repo_is_interpolated() {
    let secrets = map(&[("A", "1")]);
    let mut repo = Repo {
        config: RepoConfig {
            skip_secret_interp: false,
            environment: "e [[A]]".to_string(),
            on_clone: command("c [[A]]"),
            on_pull: command("p [[A]]"),
        },
    };
    assert!(Interpolator::new(None, &secrets).interpolate_repo(&mut repo).is_ok());
    assert_eq!(repo.config.environment, "e 1");
    assert_eq!(repo.config.on_clone.command, "c 1");
    assert_eq!(repo.config.on_pull.command, "p 1");
}

#[test]
fn every_text_of_a_build_is_interpolated() {
    let secrets = map(&[("A", "1")]);
    let mut build = Build {
        config: BuildConfig {
            skip_secret_interp: false,
            build_args: "a [[A]]".to_string(),
            secret_args: "s [[A]]".to_string(),
            labels: "l [[A]]".to_string(),
            pre_build: command("p [[A]]"),
            dockerfile: "d [[A]]".to_string(),
            extra_args: vec!["x [[A]]".to_string()],
        },
    };
    assert!(Interpolator::new(None, &secrets).interpolate_build(&mut build).is_ok());
    assert_eq!(build.config.build_args, "a 1");
    assert_eq!(build.config.secret_args, "s 1");
    assert_eq!(build.config.labels, "l 1");
    assert_eq!(build.config.pre_build.command, "p 1");
    assert_eq!(build.config.dockerfile, "d 1");
    assert_eq!(build.config.extra_args, vec!["x 1".to_string()]);
}

#[test]
fn every_text_of_a_deployment_is_interpolated() {
    let secrets = map(&[("A", "1")]);
    let mut deployment = Deployment {
        config: DeploymentConfig {
            skip_secret_interp: false,
            environment: "e [[A]]".to_string(),
            ports: "p [[A]]".to_string(),
            volumes: "v [[A]]".to_string(),
            labels: "l [[A]]".to_string(),
            command: "c [[A]]".to_string(),
            extra_args: vec!["x [[A]]".to_string()],
        },
    };
    assert!(Interpolator::new(None, &secrets).interpolate_deployment(&mut deployment).is_ok());
    assert_eq!(deployment.config.environment, "e 1");
    assert_eq!(deployment.config.ports, "p 1");
    assert_eq!(deployment.config.volumes, "v 1");
    assert_eq!(deployment.config.labels, "l 1");
    assert_eq!(deployment.config.command, "c 1");
    assert_eq!(deployment.config.extra_args, vec!["x 1".to_string()]);
}

#[test]
fn only_the_values_of_variables_are_interpolated() {
    let secrets = map(&[("A", "1")]);
    let mut interpolator = Interpolator::new(None, &secrets);
    let mut vars = vec![
        EnvironmentVar { variable: "[[A]]".to_string(), value: "[[A]]".to_string() },
        EnvironmentVar { variable: "B".to_string(), value: "[[infisical://a/b/C]]".to_string() },
    ];
    let error = match interpolator.interpolate_env_vars(&mut vars) {
        Ok(_) => panic!("must fail"),
        Err(error) => error,
    };
    assert_eq!(error.place, Place::VariableValue);
    assert!(error.message().starts_with("failed interpolation into variable value: unresolved"));
    assert_eq!(vars[0].variable, "[[A]]");
    assert_eq!(vars[0].value, "1");
}

#[test]
fn calls_can_be_chained() {
    let secrets = map(&[("A", "1")]);
    let mut interpolator = Interpolator::new(None, &secrets);
    let mut one = "[[A]]".to_string();
    let mut more = vec!["[[A]]!".to_string()];
    let done = interpolator
        .interpolate_string(&mut one)
        .and_then(|interpolator| interpolator.interpolate_extra_args(&mut more));
    assert!(done.is_ok());
    assert_eq!(one, "1");
    assert_eq!(more, vec!["1!".to_string()]);
}

#[test]
fn logs_show_variables_with_values_and_secrets_by_name() {
    let variables = map(&[("V", "shown")]);
    let secrets = map(&[("S", "hidden-value"), ("T", "other-value")]);
    let mut interpolator = Interpolator::new(Some(&variables), &secrets);
    let mut target = "[[V]] [[S]]".to_string();
    assert!(interpolator.interpolate_string(&mut target).is_ok());
    let mut second = "[[T]] [[S]]".to_string();
    assert!(interpolator.interpolate_string(&mut second).is_ok());
    assert_eq!(target, "shown hidden-value");
    assert_eq!(second, "other-value hidden-value");
    let mut logs = vec![Log::simple("Earlier", "stays".to_string())];
    interpolator.push_logs(&mut logs);
    assert_eq!(logs.len(), 3);
    assert_eq!(logs[0].stage, "Earlier");
    assert_eq!(logs[0].stdout, "stays");
    assert_eq!(logs[1].stage, "Interpolate Variables");
    assert_eq!(
        logs[1].stdout,
        "<span class=\"text-muted-foreground\">V =></span> shown"
    );
    assert_eq!(logs[2].stage, "Interpolate Secrets");
    assert_eq!(
        logs[2].stdout,
        "<span class=\"text-muted-foreground\">replaced:</span> S\n\
         <span class=\"text-muted-foreground\">replaced:</span> T"
    );
}

#[test]
fn no_provider_reference_is_left_in_the_output() {
    let out = interpolate(
        "[[infisical://a/b/C]][[PLAIN]]x[y[[infisical://a/b/D]]z",
        &[("infisical://a/b/C", ""), ("infisical://a/b/D", "]]v")],
    );
    assert_eq!(out, Ok("[[PLAIN]]x[y]]vz".to_string()));
    // A value that holds brackets is put in as it is.
    let out = interpolate("[[A]]", &[("A", "[[infisical://a/b/C]]")]);
    assert_eq!(out, Ok("[[infisical://a/b/C]]".to_string()));
}

#[test]
fn nothing_put_in_gives_no_logs() {
    let secrets = StringMap::new();
    let mut logs: Vec<Log> = Vec::new();
    Interpolator::new(None, &secrets).push_logs(&mut logs);
    assert!(logs.is_empty());
}
