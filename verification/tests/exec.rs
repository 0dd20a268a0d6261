use krata::exec::{
    exit_update, output_update, plan_exec, stdin_data, ExecEnvVar, ExecError,
    ExecStreamRequestStart, ExecStreamRequestUpdate, IdmRequest,
};

fn start(command: &[&str], env: &[(&str, &str)], dir: &str) -> Option<IdmRequest> {
    Some(IdmRequest::ExecStream(Some(ExecStreamRequestUpdate::Start(ExecStreamRequestStart {
        environment: env
            .iter()
            .map(|(k, v)| ExecEnvVar { key: k.to_string(), value: v.to_string() })
            .collect(),
        command: command.iter().map(|s| s.to_string()).collect(),
        working_directory: dir.to_string(),
    }))))
}

fn env_value(env: &[(String, String)], key: &str) -> Option<String> {
    env.iter().find(|(k, _)| k == key).map(|(_, v)| v.clone())
}

#[test]
fn refused_requests() {
    assert_eq!(plan_exec(&None).unwrap_err(), ExecError::RequestEmpty);
    assert_eq!(plan_exec(&Some(IdmRequest::Other)).unwrap_err(), ExecError::NotExecUpdate);
    assert_eq!(plan_exec(&Some(IdmRequest::ExecStream(None))).unwrap_err(), ExecError::NoStartUpdate);
    assert_eq!(
        plan_exec(&Some(IdmRequest::ExecStream(Some(ExecStreamRequestUpdate::Stdin(vec![1]))))).unwrap_err(),
        ExecError::NoStartUpdate
    );
    assert_eq!(plan_exec(&start(&[], &[], "")).unwrap_err(), ExecError::EmptyCommand);
    assert_eq!(ExecError::RequestEmpty.message(), "request was empty");
    assert_eq!(ExecError::NotExecUpdate.message(), "request was not an exec update");
    assert_eq!(ExecError::NoStartUpdate.message(), "first request did not contain a start update");
    assert_eq!(ExecError::EmptyCommand.message(), "command line was empty");
}

#[test]
fn plan_of_a_command() {
    let plan = plan_exec(&start(&["/bin/ls", "-l", "/tmp"], &[("A", "1"), ("B", "2"), ("A", "3")], "")).unwrap();
    assert_eq!(plan.program, "/bin/ls");
    assert_eq!(plan.args, vec!["-l", "/tmp"]);
    assert_eq!(plan.dir, "/");
    assert_eq!(plan.env.len(), 3);
    assert_eq!(env_value(&plan.env, "A"), Some(String::from("3")));
    assert_eq!(env_value(&plan.env, "B"), Some(String::from("2")));
    assert_eq!(env_value(&plan.env, "PATH"), Some(String::from("/bin:/usr/bin:/usr/local/bin")));
    let plan = plan_exec(&start(&["sh"], &[("PATH", "/opt")], "/work")).unwrap();
    assert_eq!(plan.dir, "/work");
    assert!(plan.args.is_empty());
    assert_eq!(plan.env, vec![(String::from("PATH"), String::from("/opt"))]);
}

#[test]
fn responses() {
    let u = output_update(b"hi", false);
    assert!(!u.exited && u.exit_code == 0 && u.error.is_empty());
    assert_eq!((u.stdout.as_slice(), u.stderr.as_slice()), (&b"hi"[..], &b""[..]));
    let u = output_update(b"err", true);
    assert_eq!((u.stdout.as_slice(), u.stderr.as_slice()), (&b""[..], &b"err"[..]));
    let u = exit_update(Some(3));
    assert!(u.exited && u.exit_code == 3);
    assert_eq!(exit_update(None).exit_code, -1);
}

#[test]
fn stdin_requests() {
    let r = Some(IdmRequest::ExecStream(Some(ExecStreamRequestUpdate::Stdin(vec![1, 2]))));
    assert_eq!(stdin_data(&r), Some(vec![1, 2]));
    assert_eq!(stdin_data(&Some(IdmRequest::Other)), None);
    assert_eq!(stdin_data(&start(&["x"], &[], "")), None);
    assert_eq!(stdin_data(&None), None);
}
