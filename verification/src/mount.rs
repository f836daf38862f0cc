//! How a Library is installed and mounted with the OKF command line.
//!
//! OKF itself runs elsewhere: what is to be run next is a function of the replies
//! so far.

use vstd::prelude::*;
use crate::error::{verdict, ContextError, ErrorView};
use crate::git::{failure_message, replies_view, Reply, ReplyView};
use crate::outside::{lossy_text, text_from_utf8_lossy};
use crate::profile::{copy_list, Profile, ProfileView};
use crate::text::{chars_of, contains_text, has_part, string_of, texts, trim, trimmed, Text};

verus! {

/// An argument of the OKF command line.
#[derive(Debug)]
pub enum Argument {
    /// It is given as it stands.
    Word(String),
    /// It is the path of the registry of the repository.
    Registry,
    /// It is the path of the Library.
    Library,
}

/// The mathematical value of an [`Argument`].
pub enum ArgumentView {
    Word(Text),
    Registry,
    Library,
}

impl View for Argument {
    type V = ArgumentView;

    open spec fn view(&self) -> ArgumentView {
        match self {
            Argument::Word(word) => ArgumentView::Word(word@),
            Argument::Registry => ArgumentView::Registry,
            Argument::Library => ArgumentView::Library,
        }
    }
}

/// The views of a list of arguments.
pub open spec fn arguments_view(list: Seq<Argument>) -> Seq<ArgumentView> {
    Seq::new(list.len(), |i: int| list[i]@)
}

/// Where mounting stands after the replies so far.
#[derive(Debug)]
pub enum MountStep {
    /// OKF is to be run with these arguments next.
    Run(Vec<Argument>),
    /// The Library has been mounted, or it is known why it cannot be.
    Done(Result<(), ContextError>),
}

/// The mathematical value of a [`MountStep`].
pub enum MountStepView {
    Run(Seq<ArgumentView>),
    Done(Result<(), ErrorView>),
}

impl View for MountStep {
    type V = MountStepView;

    open spec fn view(&self) -> MountStepView {
        match self {
            MountStep::Run(arguments) => MountStepView::Run(arguments_view(arguments@)),
            MountStep::Done(result) => MountStepView::Done(verdict(*result)),
        }
    }
}

/// What every command begins with: which registry it is about.
pub open spec fn registry_arguments() -> Seq<ArgumentView> {
    seq![ArgumentView::Word("--registry"@), ArgumentView::Registry]
}

/// Words as arguments.
pub open spec fn word_arguments(words: Seq<Text>) -> Seq<ArgumentView> {
    Seq::new(words.len(), |i: int| ArgumentView::Word(words[i]))
}

/// The command that installs a Library.
pub open spec fn add_command(profile: ProfileView) -> Seq<ArgumentView> {
    registry_arguments() + seq![
        ArgumentView::Word("library"@),
        ArgumentView::Word("add"@),
        ArgumentView::Library,
        ArgumentView::Word("--id"@),
        ArgumentView::Word(profile.library_id),
        ArgumentView::Word("--name"@),
        ArgumentView::Word(profile.project + " Project Context"@),
    ]
}

/// The words that bring an installed Library up to date.
pub open spec fn update_words(id: Text) -> Seq<Text> {
    seq!["library"@, "update"@, id]
}

/// The words that mount a Library and allow its provider to run as a process.
pub open spec fn mount_words(id: Text) -> Seq<Text> {
    seq!["library"@, "mount"@, id, "--allow-provider"@, "process"@]
}

/// The command that these words make.
pub open spec fn okf_command(words: Seq<Text>) -> Seq<ArgumentView> {
    registry_arguments() + word_arguments(words)
}

/// What a program that ran with the given arguments came to.
pub open spec fn success_verdict(
    program: Text,
    arguments: Seq<Text>,
    success: bool,
    stderr: Seq<u8>,
) -> Result<(), ErrorView> {
    if success {
        Ok(())
    } else {
        Err(
            ErrorView::ProgramFailed { program, arguments, message: trimmed(lossy_text(stderr)) },
        )
    }
}

/// What the reply of OKF to a command came to.
pub open spec fn okf_verdict(words: Seq<Text>, reply: ReplyView) -> Result<(), ErrorView> {
    match reply {
        ReplyView::NotStarted { cause } => Err(
            ErrorView::NotStarted { program: "okf"@, arguments: words, cause },
        ),
        ReplyView::Finished { success, stderr, .. } => success_verdict(
            "okf"@,
            words,
            success,
            stderr,
        ),
    }
}

/// Mounting, once the Library is installed.
pub open spec fn installed_step(profile: ProfileView, rest: Seq<ReplyView>) -> MountStepView {
    if rest.len() == 0 {
        MountStepView::Run(okf_command(mount_words(profile.library_id)))
    } else {
        MountStepView::Done(okf_verdict(mount_words(profile.library_id), rest[0]))
    }
}

/// Installing a Library, or updating it where it is installed already, and then
/// mounting it.
pub open spec fn mount_step(profile: ProfileView, replies: Seq<ReplyView>) -> MountStepView {
    if replies.len() == 0 {
        MountStepView::Run(add_command(profile))
    } else {
        match replies[0] {
            ReplyView::NotStarted { cause } => MountStepView::Done(
                Err(ErrorView::OkfNotStarted { cause }),
            ),
            ReplyView::Finished { success, stderr, .. } => if success {
                installed_step(profile, replies.skip(1))
            } else if !contains_text(lossy_text(stderr), "already installed"@) {
                MountStepView::Done(
                    Err(ErrorView::AddFailed { message: trimmed(lossy_text(stderr)) }),
                )
            } else if replies.len() == 1 {
                MountStepView::Run(okf_command(update_words(profile.library_id)))
            } else {
                match okf_verdict(update_words(profile.library_id), replies[1]) {
                    Err(error) => MountStepView::Done(Err(error)),
                    Ok(_) => installed_step(profile, replies.skip(2)),
                }
            },
        }
    }
}

/// The arguments of the command that these words make.
fn okf_arguments(words: &Vec<String>) -> (r: Vec<Argument>)
    ensures
        arguments_view(r@) == okf_command(texts(words@)),
{
    let mut r = vec![Argument::Word("--registry".to_owned()), Argument::Registry];
    let mut i: usize = 0;
    while i < words.len()
        invariant
            i <= words@.len(),
            r@.len() == i + 2,
            r@[0]@ == ArgumentView::Word("--registry"@),
            r@[1]@ == ArgumentView::Registry,
            forall|j: int| 0 <= j < i ==> (#[trigger] r@[j + 2])@ == ArgumentView::Word(words@[j]@),
        decreases words@.len() - i,
    {
        r.push(Argument::Word(words[i].clone()));
        i += 1;
    }
    assert forall|k: int| 0 <= k < r@.len() implies arguments_view(r@)[k] == okf_command(
        texts(words@),
    )[k] by {
        if k >= 2 {
            assert(r@[(k - 2) + 2]@ == ArgumentView::Word(words@[k - 2]@));
        }
    }
    assert(arguments_view(r@) =~= okf_command(texts(words@)));
    r
}

fn update_list(id: &str) -> (r: Vec<String>)
    ensures
        texts(r@) == update_words(id@),
{
    let r = vec!["library".to_owned(), "update".to_owned(), id.to_owned()];
    assert(texts(r@) =~= update_words(id@));
    r
}

fn mount_list(id: &str) -> (r: Vec<String>)
    ensures
        texts(r@) == mount_words(id@),
{
    let r = vec![
        "library".to_owned(),
        "mount".to_owned(),
        id.to_owned(),
        "--allow-provider".to_owned(),
        "process".to_owned(),
    ];
    assert(texts(r@) =~= mount_words(id@));
    r
}

/// Refuses what a program that did not succeed left.
pub fn ensure_success(program: &str, arguments: &Vec<String>, success: bool, stderr: &Vec<u8>) -> (r:
    Result<(), ContextError>)
    ensures
        verdict(r) == success_verdict(program@, texts(arguments@), success, stderr@),
{
    if success {
        Ok(())
    } else {
        Err(
            ContextError::ProgramFailed {
                program: program.to_owned(),
                arguments: copy_list(arguments),
                message: failure_message(stderr),
            },
        )
    }
}

/// What the reply of OKF to a command came to.
pub fn run_okf(words: &Vec<String>, reply: &Reply) -> (r: Result<(), ContextError>)
    ensures
        verdict(r) == okf_verdict(texts(words@), reply@),
{
    match reply {
        Reply::NotStarted { cause } => Err(
            ContextError::NotStarted {
                program: "okf".to_owned(),
                arguments: copy_list(words),
                cause: cause.clone(),
            },
        ),
        Reply::Finished { success, stderr, .. } => ensure_success("okf", words, *success, stderr),
    }
}

/// Mounting, once the Library is installed and `used` replies have been seen.
fn mount_installed(profile: &Profile, replies: &[Reply], used: usize) -> (r: MountStep)
    requires
        used <= replies@.len(),
    ensures
        r@ == installed_step(profile@, replies_view(replies@).skip(used as int)),
{
    let words = mount_list(profile.library_id.as_str());
    let ghost rest = replies_view(replies@).skip(used as int);
    if used == replies.len() {
        return MountStep::Run(okf_arguments(&words));
    }
    assert(rest[0] == replies@[used as int]@);
    MountStep::Done(run_okf(&words, &replies[used]))
}

/// What is to be done next to install and mount the Library of a profile.
pub fn mount_library(profile: &Profile, replies: &[Reply]) -> (r: MountStep)
    ensures
        r@ == mount_step(profile@, replies_view(replies@)),
{
    let id = profile.library_id.as_str();
    if replies.len() == 0 {
        let name = profile.project.as_str().to_owned().concat(" Project Context");
        let arguments = vec![
            Argument::Word("--registry".to_owned()),
            Argument::Registry,
            Argument::Word("library".to_owned()),
            Argument::Word("add".to_owned()),
            Argument::Library,
            Argument::Word("--id".to_owned()),
            Argument::Word(id.to_owned()),
            Argument::Word("--name".to_owned()),
            Argument::Word(name),
        ];
        assert(arguments_view(arguments@) =~= add_command(profile@));
        return MountStep::Run(arguments);
    }
    match &replies[0] {
        Reply::NotStarted { cause } => MountStep::Done(
            Err(ContextError::OkfNotStarted { cause: cause.clone() }),
        ),
        Reply::Finished { success, stderr, .. } => {
            if *success {
                return mount_installed(profile, replies, 1);
            }
            let message = chars_of(text_from_utf8_lossy(stderr.as_slice()).as_str());
            let known = chars_of("already installed");
            if !has_part(message.as_slice(), known.as_slice()) {
                return MountStep::Done(
                    Err(ContextError::AddFailed { message: string_of(trim(message.as_slice())) }),
                );
            }
            let words = update_list(id);
            if replies.len() == 1 {
                return MountStep::Run(okf_arguments(&words));
            }
            match run_okf(&words, &replies[1]) {
                Err(error) => MountStep::Done(Err(error)),
                Ok(_) => mount_installed(profile, replies, 2),
            }
        },
    }
}

/// Three replies are always enough to know whether a Library was mounted.
pub proof fn law_mounting_ends(profile: ProfileView, replies: Seq<ReplyView>)
    requires
        replies.len() >= 3,
    ensures
        mount_step(profile, replies) is Done,
{
}

/// A Library counts as mounted only where OKF was asked to mount it and succeeded.
pub proof fn law_mounted_only_by_okf(profile: ProfileView, replies: Seq<ReplyView>)
    requires
        mount_step(profile, replies) matches MountStepView::Done(Ok(_)),
    ensures
        exists|i: int|
            0 <= i < replies.len() && mount_step(profile, #[trigger] replies.take(i))
                == MountStepView::Run(okf_command(mount_words(profile.library_id)))
                && replies[i] is Finished && replies[i]->success,
{
    if replies[0]->success {
        let shorter = replies.take(1);
        assert(shorter[0] == replies[0]);
        assert(replies.skip(1)[0] == replies[1]);
        assert(shorter.skip(1).len() == 0);
        assert(mount_step(profile, shorter) == MountStepView::Run(
            okf_command(mount_words(profile.library_id)),
        ));
    } else {
        let shorter = replies.take(2);
        assert(shorter[0] == replies[0] && shorter[1] == replies[1]);
        assert(replies.skip(2)[0] == replies[2]);
        assert(shorter.skip(2).len() == 0);
        assert(mount_step(profile, shorter) == MountStepView::Run(
            okf_command(mount_words(profile.library_id)),
        ));
    }
}

/// The reply of a program that ran and succeeded.
pub open spec fn succeeded(reply: ReplyView) -> bool {
    reply is Finished && reply->success
}

/// OKF is asked to add the Library under its id and a name made of the project; where
/// it says that the Library is installed already, to update it; and then to mount it
/// and to allow its provider to run as a process. The Library is mounted where the last
/// of these succeeds, and every failure on the way ends the mounting.
pub proof fn law_mounting_goes_step_by_step(profile: ProfileView, replies: Seq<ReplyView>)
    ensures
        ({
            let id = profile.library_id;
            let start = seq![ArgumentView::Word("--registry"@), ArgumentView::Registry];
            let add = start + seq![
                ArgumentView::Word("library"@),
                ArgumentView::Word("add"@),
                ArgumentView::Library,
                ArgumentView::Word("--id"@),
                ArgumentView::Word(id),
                ArgumentView::Word("--name"@),
                ArgumentView::Word(profile.project + " Project Context"@),
            ];
            let update = start + seq![
                ArgumentView::Word("library"@),
                ArgumentView::Word("update"@),
                ArgumentView::Word(id),
            ];
            let mount = start + seq![
                ArgumentView::Word("library"@),
                ArgumentView::Word("mount"@),
                ArgumentView::Word(id),
                ArgumentView::Word("--allow-provider"@),
                ArgumentView::Word("process"@),
            ];
            let step = mount_step(profile, replies);
            let known = replies.len() > 0 && replies[0] is Finished && !succeeded(replies[0])
                && contains_text(lossy_text(replies[0]->stderr), "already installed"@);
            &&& replies.len() == 0 ==> step == MountStepView::Run(add)
            &&& replies.len() > 0 && replies[0] is NotStarted ==> step == MountStepView::Done(
                Err(ErrorView::OkfNotStarted { cause: replies[0]->cause }),
            )
            &&& replies.len() > 0 && replies[0] is Finished && !succeeded(replies[0]) && !known
                ==> step == MountStepView::Done(
                Err(ErrorView::AddFailed { message: trimmed(lossy_text(replies[0]->stderr)) }),
            )
            &&& replies.len() == 1 && succeeded(replies[0]) ==> step == MountStepView::Run(mount)
            &&& replies.len() >= 2 && succeeded(replies[0]) ==> (step is Done
                && step->Done_0 is Ok) == succeeded(replies[1])
            &&& replies.len() >= 2 && succeeded(replies[0]) && !succeeded(replies[1]) ==> step
                is Done && step->Done_0 is Err
            &&& replies.len() == 1 && known ==> step == MountStepView::Run(update)
            &&& replies.len() >= 2 && known && !succeeded(replies[1]) ==> step is Done
                && step->Done_0 is Err
            &&& replies.len() == 2 && known && succeeded(replies[1]) ==> step
                == MountStepView::Run(mount)
            &&& replies.len() >= 3 && known && succeeded(replies[1]) && succeeded(replies[2])
                ==> step is Done && step->Done_0 is Ok
            &&& replies.len() >= 3 && known && succeeded(replies[1]) && !succeeded(replies[2])
                ==> step is Done && step->Done_0 is Err
        }),
{
    let id = profile.library_id;
    if replies.len() >= 1 {
        assert(replies.skip(1).len() == replies.len() - 1);
    }
    if replies.len() >= 2 {
        assert(replies.skip(1)[0] == replies[1]);
        assert(replies.skip(2).len() == replies.len() - 2);
    }
    if replies.len() >= 3 {
        assert(replies.skip(2)[0] == replies[2]);
    }
    assert(word_arguments(mount_words(id)) =~= seq![
        ArgumentView::Word("library"@),
        ArgumentView::Word("mount"@),
        ArgumentView::Word(id),
        ArgumentView::Word("--allow-provider"@),
        ArgumentView::Word("process"@),
    ]);
    assert(word_arguments(update_words(id)) =~= seq![
        ArgumentView::Word("library"@),
        ArgumentView::Word("update"@),
        ArgumentView::Word(id),
    ]);
}

/// What OKF comes to is told with its own words: nothing where it succeeded, and
/// otherwise the program, its arguments and what it wrote, without the white space
/// around it.
pub proof fn law_failures_tell_what_was_written(words: Seq<Text>, program: Text, reply: ReplyView)
    ensures
        succeeded(reply) <==> okf_verdict(words, reply) is Ok,
        reply is NotStarted ==> okf_verdict(words, reply) == Err::<(), ErrorView>(
            ErrorView::NotStarted { program: "okf"@, arguments: words, cause: reply->cause },
        ),
        reply is Finished && !succeeded(reply) ==> {
            &&& okf_verdict(words, reply) == Err::<(), ErrorView>(
                ErrorView::ProgramFailed {
                    program: "okf"@,
                    arguments: words,
                    message: trimmed(lossy_text(reply->stderr)),
                },
            )
            &&& success_verdict(program, words, false, reply->stderr) == Err::<(), ErrorView>(
                ErrorView::ProgramFailed {
                    program,
                    arguments: words,
                    message: trimmed(lossy_text(reply->stderr)),
                },
            )
        },
        reply is Finished ==> success_verdict(program, words, true, reply->stderr) is Ok,
{
}

} // verus!
