use project_context::git::Reply;
use project_context::mount::{ensure_success, mount_library, run_okf, Argument, MountStep};
use project_context::profile::{new_profile, Profile};

fn profile() -> Profile {
    new_profile(Some("Demo"), None, "demo")
}

fn ended(success: bool, stderr: &str) -> Reply {
    Reply::Finished { success, stdout: Vec::new(), stderr: stderr.as_bytes().to_vec() }
}

fn absent() -> Reply {
    Reply::NotStarted { cause: "not found".to_owned() }
}

fn asked(replies: &[Reply]) -> String {
    match mount_library(&profile(), replies) {
        MountStep::Run(arguments) => {
            let words: Vec<String> = arguments
                .into_iter()
                .map(|argument| match argument {
                    Argument::Word(word) => word,
                    Argument::Registry => "<registry>".to_owned(),
                    Argument::Library => "<library>".to_owned(),
                })
                .collect();
            words.join("|")
        }
        other => panic!("{other:?}"),
    }
}

fn refused(replies: &[Reply]) -> String {
    match mount_library(&profile(), replies) {
        MountStep::Done(Err(error)) => error.message(),
        other => panic!("{other:?}"),
    }
}

const ADD: &str = "--registry|<registry>|library|add|<library>|--id|demo|--name|Demo Project Context";
const UPDATE: &str = "--registry|<registry>|library|update|demo";
const MOUNT: &str = "--registry|<registry>|library|mount|demo|--allow-provider|process";

#[test]
fn libraries_are_added_and_then_mounted() {
    assert_eq!(asked(&[]), ADD);
    assert_eq!(asked(&[ended(true, "")]), MOUNT);
    let replies = [ended(true, ""), ended(true, "warning")];
    assert!(matches!(mount_library(&profile(), &replies), MountStep::Done(Ok(()))));
}

#[test]
fn installed_libraries_are_updated() {
    let known = || ended(false, "error: demo is already installed\n");
    assert_eq!(asked(&[known()]), UPDATE);
    assert_eq!(asked(&[known(), ended(true, "")]), MOUNT);
    let replies = [known(), ended(true, ""), ended(true, "")];
    assert!(matches!(mount_library(&profile(), &replies), MountStep::Done(Ok(()))));
    assert_eq!(
        refused(&[known(), ended(false, " locked\n")]),
        "okf library update demo failed: locked"
    );
    assert_eq!(
        refused(&[known(), absent()]),
        "failed to execute okf library update demo: not found"
    );
}

#[test]
fn failures_end_the_mounting() {
    assert_eq!(
        refused(&[absent()]),
        "failed to execute the okf CLI; install OKF CLI 0.2 or newer: not found"
    );
    assert_eq!(refused(&[ended(false, "\n no access\n")]), "okf library add failed: no access");
    assert_eq!(
        refused(&[ended(true, ""), ended(false, "denied")]),
        "okf library mount demo --allow-provider process failed: denied"
    );
}

#[test]
fn success_is_what_the_program_says() {
    let words = vec!["library".to_owned(), "list".to_owned()];
    assert!(ensure_success("okf", &words, true, &b"noise".to_vec()).is_ok());
    let error = ensure_success("tool", &words, false, &vec![0xfe, b'!']).expect_err("failure");
    assert_eq!(error.message(), "tool library list failed: \u{fffd}!");
    assert!(run_okf(&words, &ended(true, "")).is_ok());
    assert!(run_okf(&words, &ended(false, "")).is_err());
}
