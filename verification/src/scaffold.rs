//! The files of a new Library, and what Git ignores beside it.

use vstd::prelude::*;
use crate::error::{outcome, ContextError, ErrorView};
use crate::knowledge::{library_id_verdict, validate_library_id};
use crate::outside::{hex_digit, json_char, json_chars, json_from_text, json_string};
use crate::profile::{new_profile, new_profile_view, Profile, ProfileView};
use crate::provider::stored;
use crate::status::optional_str;
use crate::text::{
    char_lists, chars_of, contains_text, lemma_contained, lemma_pieces_concat, lemma_pieces_single,
    pieces, same_text, split, starts_with, string_of, trim, trimmed, Text,
};

verus! {

/// `value` as a quoted YAML string.
pub fn yaml_string(value: &str) -> (r: Result<String, ContextError>)
    ensures
        outcome(r) == Ok::<Text, ErrorView>(json_string(value@)),
{
    match json_from_text(value) {
        Ok(quoted) => Ok(quoted),
        Err(_) => Err(ContextError::NotQuoted),
    }
}

/// A file of the Library: its path below the root, and what is in it.
#[derive(Debug)]
pub struct ScaffoldFile {
    pub path: String,
    pub contents: String,
}

/// The mathematical value of a [`ScaffoldFile`].
pub struct FileView {
    pub path: Text,
    pub contents: Text,
}

impl View for ScaffoldFile {
    type V = FileView;

    open spec fn view(&self) -> FileView {
        FileView { path: self.path@, contents: self.contents@ }
    }
}

/// The views of a list of files.
pub open spec fn files_of(list: Seq<ScaffoldFile>) -> Seq<FileView> {
    Seq::new(list.len(), |i: int| list[i]@)
}

/// What follows the id and the name in the manifest of every Library.
pub const MANIFEST_REST: &'static str = "
version: \"0.1.0\"

catalog:
  - id: status
    title: Live project freshness
    description: Current Git revision, working-tree freshness, and impacted topics.
    path: status
    terms: [status, freshness, revision, dirty]
  - id: architecture
    title: Architecture
    description: Current architecture, boundaries, dependencies, and major flows.
    path: current/architecture
    terms: [architecture, modules, boundaries]
  - id: constraints
    title: Constraints
    description: Durable product and technical constraints.
    path: current/constraints
    terms: [constraints, invariants, rules]
  - id: decisions
    title: Decisions
    description: Active decisions, rationale, and supersession notes.
    path: current/decisions
    terms: [decisions, adr, rationale]
  - id: components
    title: Components
    description: Current component responsibilities and ownership boundaries.
    path: current/components
    terms: [components, modules, packages]
  - id: history
    title: Project history
    description: Append-only material context changes and validated checkpoints.
    path: history/log
    terms: [history, changes, checkpoints]

query:
  preferred: lexical
  capabilities: [lexical]
  hints:
    - Read status before broad repository exploration.
    - Prefer current/ for present-tense project understanding.
    - Use history/log for why and when the project changed.

providers:
  - id: project-context-runtime
    kind: process
    capabilities: [catalog, list, read, query, refresh]
    config:
      command: project-context
      args: [provider, --library-root, \"${library_root}\"]
      timeout_ms: 30000
";

/// The manifest of a Library.
pub open spec fn manifest(id: Text, project: Text) -> Text {
    "schema_version: \"1\"\nid: "@ + json_string(id) + "\nname: "@ + json_string(
        project + " Project Context"@,
    ) + MANIFEST_REST@
}

/// An empty knowledge document.
pub open spec fn document(title: Text, summary: Text) -> Text {
    "---\ntitle: "@ + title + "\nsummary: "@ + summary
        + "\ntags: [project-context]\n---\n# "@ + title
        + "\n\n<!-- Maintained by an authorized Project Context workflow. -->\n"@
}

/// The files of a new Library, in the order in which they are written.
pub open spec fn scaffold(id: Text, project: Text) -> Seq<FileView> {
    seq![
        FileView { path: "okf-library.yaml"@, contents: manifest(id, project) },
        FileView {
            path: "index.md"@,
            contents: document(
                "Project Context"@,
                "Entry point for durable, revision-aware project knowledge."@,
            ),
        },
        FileView {
            path: "current/architecture.md"@,
            contents: document(
                "Architecture"@,
                "Current architecture, boundaries, dependencies, and major flows."@,
            ),
        },
        FileView {
            path: "current/constraints.md"@,
            contents: document(
                "Constraints"@,
                "Current invariants, compatibility requirements, and non-negotiable constraints."@,
            ),
        },
        FileView {
            path: "current/decisions.md"@,
            contents: document(
                "Decisions"@,
                "Active decisions with rationale and supersession notes."@,
            ),
        },
        FileView {
            path: "current/components.md"@,
            contents: document(
                "Components"@,
                "Current component responsibilities, interfaces, and ownership boundaries."@,
            ),
        },
        FileView {
            path: "history/log.md"@,
            contents: document(
                "Project History"@,
                "Append-only history of material context changes and validated checkpoints."@,
            ),
        },
    ]
}

/// What a fallible function that returns files gave.
pub open spec fn files_outcome(result: Result<Vec<ScaffoldFile>, ContextError>) -> Result<
    Seq<FileView>,
    ErrorView,
> {
    match result {
        Ok(list) => Ok(files_of(list@)),
        Err(error) => Err(error@),
    }
}

/// An empty knowledge document.
pub fn write_doc(title: &str, summary: &str) -> (r: String)
    ensures
        r@ == document(title@, summary@),
{
    "---\ntitle: ".to_owned().concat(title).concat("\nsummary: ").concat(summary).concat(
        "\ntags: [project-context]\n---\n# ",
    ).concat(title).concat(
        "\n\n<!-- Maintained by an authorized Project Context workflow. -->\n",
    )
}

/// The file at `path` with an empty knowledge document.
fn document_file(path: &str, title: &str, summary: &str) -> (r: ScaffoldFile)
    ensures
        r@ == (FileView { path: path@, contents: document(title@, summary@) }),
{
    ScaffoldFile { path: path.to_owned(), contents: write_doc(title, summary) }
}

/// The files of a new Library, in the order in which they are to be written.
pub fn create_scaffold(id: &str, project: &str) -> (r: Result<Vec<ScaffoldFile>, ContextError>)
    ensures
        files_outcome(r) == Ok::<Seq<FileView>, ErrorView>(scaffold(id@, project@)),
{
    let name = project.to_owned().concat(" Project Context");
    let id_text = match yaml_string(id) {
        Err(error) => {
            return Err(error);
        },
        Ok(quoted) => quoted,
    };
    let name_text = match yaml_string(name.as_str()) {
        Err(error) => {
            return Err(error);
        },
        Ok(quoted) => quoted,
    };
    let contents = "schema_version: \"1\"\nid: ".to_owned().concat(id_text.as_str()).concat(
        "\nname: ",
    ).concat(name_text.as_str()).concat(MANIFEST_REST);
    let files = vec![
        ScaffoldFile { path: "okf-library.yaml".to_owned(), contents },
        document_file(
            "index.md",
            "Project Context",
            "Entry point for durable, revision-aware project knowledge.",
        ),
        document_file(
            "current/architecture.md",
            "Architecture",
            "Current architecture, boundaries, dependencies, and major flows.",
        ),
        document_file(
            "current/constraints.md",
            "Constraints",
            "Current invariants, compatibility requirements, and non-negotiable constraints.",
        ),
        document_file(
            "current/decisions.md",
            "Decisions",
            "Active decisions with rationale and supersession notes.",
        ),
        document_file(
            "current/components.md",
            "Components",
            "Current component responsibilities, interfaces, and ownership boundaries.",
        ),
        document_file(
            "history/log.md",
            "Project History",
            "Append-only history of material context changes and validated checkpoints.",
        ),
    ];
    assert(files_of(files@) =~= scaffold(id@, project@));
    Ok(files)
}

/// One of the lines of `content` says `line`, with or without white space around
/// it.
pub open spec fn has_line(content: Text, line: Text) -> bool {
    exists|i: int|
        0 <= i < pieces(content, '\n').len() && trimmed(#[trigger] pieces(content, '\n')[i]) == line
}

/// `content` as far as it needs a line break before another line.
pub open spec fn line_ended(content: Text) -> Text {
    if content.len() > 0 && content.last() != '\n' {
        content.push('\n')
    } else {
        content
    }
}

/// `content` with `line` in it.
pub open spec fn with_line(content: Text, line: Text) -> Text {
    if has_line(content, line) {
        content
    } else {
        (line_ended(content) + line).push('\n')
    }
}

/// `content` with the lines in it that keep the files of the runtime out of Git.
pub open spec fn ignoring_runtime(content: Text) -> Text {
    with_line(with_line(with_line(content, "/cache/"@), "/libraries.json"@), "/state/"@)
}

/// Whether one of the lines of `content` says `line`.
fn line_present(content: &str, line: &str) -> (r: bool)
    ensures
        r == has_line(content@, line@),
{
    let chars = chars_of(content);
    let parts = split(chars.as_slice(), '\n');
    let ghost all = char_lists(parts@);
    let mut i: usize = 0;
    while i < parts.len()
        invariant
            i <= parts@.len(),
            all == char_lists(parts@),
            all == pieces(content@, '\n'),
            forall|j: int| 0 <= j < i ==> trimmed(#[trigger] all[j]) != line@,
        decreases parts@.len() - i,
    {
        assert(all[i as int] == parts@[i as int]@);
        let inner = string_of(trim(parts[i].as_slice()));
        if same_text(inner.as_str(), line) {
            return true;
        }
        i += 1;
    }
    false
}

/// `content` with `line` in it.
fn add_line(content: String, line: &str) -> (r: String)
    ensures
        r@ == with_line(content@, line@),
{
    if line_present(content.as_str(), line) {
        return content;
    }
    let chars = chars_of(content.as_str());
    let n = chars.len();
    let mut r = content;
    if n > 0 && chars[n - 1] != '\n' {
        r.push('\n');
    }
    r.append(line);
    r.push('\n');
    r
}

/// The content of a `.gitignore` file with the lines in it that keep the files of
/// the runtime out of Git.
pub fn ensure_runtime_gitignore(content: &str) -> (r: String)
    ensures
        r@ == ignoring_runtime(content@),
{
    add_line(add_line(add_line(content.to_owned(), "/cache/"), "/libraries.json"), "/state/")
}

/// What initializing a Library does: whether what is there is removed first, the
/// profile that is stored, and the files that are written.
#[derive(Debug)]
pub struct Initialization {
    pub reset: bool,
    pub profile: Profile,
    pub files: Vec<ScaffoldFile>,
}

/// The mathematical value of an [`Initialization`].
pub struct InitializationView {
    pub reset: bool,
    pub profile: ProfileView,
    pub files: Seq<FileView>,
}

impl View for Initialization {
    type V = InitializationView;

    open spec fn view(&self) -> InitializationView {
        InitializationView {
            reset: self.reset,
            profile: self.profile@,
            files: files_of(self.files@),
        }
    }
}

/// What initializing a Library does. One that is there already is replaced only
/// by force.
pub open spec fn initialized(
    root: Text,
    present: bool,
    force: bool,
    id: Text,
    project: Option<Text>,
    directory: Option<Text>,
) -> Result<InitializationView, ErrorView> {
    match library_id_verdict(id) {
        Err(error) => Err(error),
        Ok(_) => if present && !force {
            Err(ErrorView::LibraryExists { root })
        } else {
            let profile = new_profile_view(project, directory, id);
            Ok(
                InitializationView {
                    reset: present,
                    profile,
                    files: scaffold(id, profile.project),
                },
            )
        },
    }
}

/// Decides how the Library at `root` is initialized, where `present` tells whether
/// something is there and `directory` is the name of the repository's directory.
pub fn init(
    root: &str,
    present: bool,
    force: bool,
    id: &str,
    project: Option<&str>,
    directory: Option<&str>,
) -> (r: Result<Initialization, ContextError>)
    ensures
        outcome(r) == initialized(
            root@,
            present,
            force,
            id@,
            optional_str(project),
            optional_str(directory),
        ),
{
    match validate_library_id(id) {
        Err(error) => {
            return Err(error);
        },
        Ok(_) => {},
    }
    if present && !force {
        return Err(ContextError::LibraryExists { root: root.to_owned() });
    }
    let profile = new_profile(project, directory, id);
    match create_scaffold(id, profile.project.as_str()) {
        Err(error) => Err(error),
        Ok(files) => Ok(Initialization { reset: present, profile, files }),
    }
}

/// What is appended on a line of its own takes no line away.
proof fn lemma_lines_stay(content: Text, tail: Text, line: Text)
    requires
        has_line(content, line),
        line.len() > 0,
        content.last() == '\n' || (tail.len() > 0 && tail[0] == '\n'),
    ensures
        has_line(content + tail, line),
{
    let i = choose|i: int|
        0 <= i < pieces(content, '\n').len() && trimmed(#[trigger] pieces(content, '\n')[i]) == line;
    if tail.len() > 0 && tail[0] == '\n' {
        let rest = tail.drop_first();
        assert(content + tail =~= content.push('\n') + rest);
        lemma_pieces_concat(content, rest, '\n');
        assert(pieces(content + tail, '\n')[i] == pieces(content, '\n')[i]);
    } else if content.len() > 0 {
        let a = content.drop_last();
        assert(content =~= a.push('\n') + Seq::<char>::empty());
        assert(content + tail =~= a.push('\n') + tail);
        lemma_pieces_concat(a, Seq::empty(), '\n');
        lemma_pieces_concat(a, tail, '\n');
        if i < pieces(a, '\n').len() {
            assert(pieces(content + tail, '\n')[i] == pieces(content, '\n')[i]);
        } else {
            assert(pieces(content, '\n')[i] =~= Seq::<char>::empty());
        }
    } else {
        assert(pieces(content, '\n')[i] =~= Seq::<char>::empty());
    }
}

/// A line between two line breaks is a line.
proof fn lemma_line_between(start: Text, line: Text, rest: Text)
    requires
        !line.contains('\n'),
        trimmed(line) == line,
    ensures
        has_line(start.push('\n') + line.push('\n') + rest, line),
        has_line(line.push('\n') + rest, line),
{
    lemma_pieces_single(line, '\n');
    lemma_pieces_concat(line, rest, '\n');
    let inner = line.push('\n') + rest;
    assert(pieces(inner, '\n')[0] == line);
    lemma_pieces_concat(start, inner, '\n');
    assert(start.push('\n') + line.push('\n') + rest =~= start.push('\n') + inner);
    assert(pieces(start.push('\n') + inner, '\n')[pieces(start, '\n').len() as int] == line);
}

proof fn lemma_with_line(content: Text, line: Text, other: Text)
    requires
        !line.contains('\n'),
        trimmed(line) == line,
        other.len() > 0,
    ensures
        starts_with(with_line(content, line), content),
        has_line(with_line(content, line), line),
        has_line(content, other) ==> has_line(with_line(content, line), other),
{
    if has_line(content, line) {
        assert(content.subrange(0, content.len() as int) =~= content);
    } else {
        let whole = with_line(content, line);
        assert(whole.subrange(0, content.len() as int) =~= content);
        if content.len() == 0 {
            assert(whole =~= line.push('\n') + Seq::<char>::empty());
            lemma_line_between(Seq::empty(), line, Seq::empty());
            if has_line(content, other) {
                let i = choose|i: int|
                    0 <= i < pieces(content, '\n').len() && trimmed(
                        #[trigger] pieces(content, '\n')[i],
                    ) == other;
                assert(pieces(content, '\n')[i] =~= Seq::<char>::empty());
            }
        } else {
            let ended = line_ended(content);
            let start = ended.drop_last();
            assert(whole =~= start.push('\n') + line.push('\n') + Seq::<char>::empty());
            lemma_line_between(start, line, Seq::empty());
            if has_line(content, other) {
                let tail = whole.skip(content.len() as int);
                assert(whole =~= content + tail);
                if content.last() != '\n' {
                    assert(tail[0] == '\n');
                }
                lemma_lines_stay(content, tail, other);
            }
        }
    }
}

/// The text of a `.gitignore` file is kept, the files of the runtime are
/// ignored afterwards, and doing it again changes nothing.
pub proof fn law_runtime_files_are_ignored(content: Text)
    ensures
        starts_with(ignoring_runtime(content), content),
        has_line(ignoring_runtime(content), "/cache/"@),
        has_line(ignoring_runtime(content), "/libraries.json"@),
        has_line(ignoring_runtime(content), "/state/"@),
        ignoring_runtime(ignoring_runtime(content)) == ignoring_runtime(content),
{
    reveal_strlit("/cache/");
    reveal_strlit("/libraries.json");
    reveal_strlit("/state/");
    let (a, b, c) = ("/cache/"@, "/libraries.json"@, "/state/"@);
    assert(trimmed(a) == a);
    assert(trimmed(b) == b);
    assert(trimmed(c) == c);
    let first = with_line(content, a);
    let second = with_line(first, b);
    let third = with_line(second, c);
    lemma_with_line(content, a, a);
    lemma_with_line(first, b, a);
    lemma_with_line(second, c, a);
    lemma_with_line(second, c, b);
    assert(third.subrange(0, content.len() as int) =~= content) by {
        assert(third.subrange(0, second.len() as int) == second);
        assert(second.subrange(0, first.len() as int) == first);
        assert(first.subrange(0, content.len() as int) == content);
        assert forall|i: int| 0 <= i < content.len() implies third[i] == content[i] by {
            assert(content[i] == first.subrange(0, content.len() as int)[i]);
            assert(first[i] == second.subrange(0, first.len() as int)[i]);
            assert(second[i] == third.subrange(0, second.len() as int)[i]);
        }
    }
}

/// A new Library holds the file of every stored node.
pub proof fn law_scaffold_is_complete(id: Text, project: Text, path: Text)
    requires
        stored(path),
    ensures
        exists|i: int|
            0 <= i < scaffold(id, project).len() && (#[trigger] scaffold(id, project)[i]).path
                == path + ".md"@,
{
    let files = scaffold(id, project);
    reveal_strlit(".md");
    reveal_strlit("index");
    reveal_strlit("index.md");
    reveal_strlit("current/architecture");
    reveal_strlit("current/architecture.md");
    reveal_strlit("current/constraints");
    reveal_strlit("current/constraints.md");
    reveal_strlit("current/decisions");
    reveal_strlit("current/decisions.md");
    reveal_strlit("current/components");
    reveal_strlit("current/components.md");
    reveal_strlit("history/log");
    reveal_strlit("history/log.md");
    assert(files[1].path =~= "index"@ + ".md"@);
    assert(files[2].path =~= "current/architecture"@ + ".md"@);
    assert(files[3].path =~= "current/constraints"@ + ".md"@);
    assert(files[4].path =~= "current/decisions"@ + ".md"@);
    assert(files[5].path =~= "current/components"@ + ".md"@);
    assert(files[6].path =~= "history/log"@ + ".md"@);
}

/// A quoted text stays on one line, whatever it holds.
pub proof fn law_quoted_text_stays_on_one_line(s: Text)
    ensures
        forall|i: int| 0 <= i < json_string(s).len() ==> #[trigger] json_string(s)[i] >= ' ',
{
    lemma_json_chars_printable(s);
}

proof fn lemma_json_chars_printable(s: Text)
    ensures
        forall|i: int| 0 <= i < json_chars(s).len() ==> #[trigger] json_chars(s)[i] >= ' ',
    decreases s.len(),
{
    if s.len() > 0 {
        lemma_json_chars_printable(s.drop_first());
        lemma_json_char(s[0]);
        let (head, rest) = (json_char(s[0]), json_chars(s.drop_first()));
        assert forall|i: int| 0 <= i < json_chars(s).len() implies #[trigger] json_chars(s)[i]
            >= ' ' by {
            if i < head.len() {
                assert(json_chars(s)[i] == head[i]);
            } else {
                assert(json_chars(s)[i] == rest[i - head.len()]);
            }
        }
    }
}

proof fn lemma_json_char(c: char)
    ensures
        json_char(c).len() > 0,
        forall|i: int| 0 <= i < json_char(c).len() ==> #[trigger] json_char(c)[i] >= ' ',
{
    if ' ' > c {
        let (high, low) = (c as int / 16, c as int % 16);
        assert(0 <= high <= 1 && 0 <= low < 16);
        assert(hex_digit(high) >= ' ' && hex_digit(low) >= ' ');
    }
}

/// Two characters that are written the same way at the front of what follows are
/// the same character.
proof fn lemma_json_char_prefix(c: char, d: char, x: Text, y: Text)
    requires
        json_char(c) + x == json_char(d) + y,
    ensures
        c == d,
        x == y,
{
    let (p, q) = (json_char(c), json_char(d));
    lemma_json_char(c);
    lemma_json_char(d);
    let whole = p + x;
    assert(forall|i: int| 0 <= i < p.len() ==> whole[i] == #[trigger] p[i]);
    assert(forall|i: int| 0 <= i < q.len() ==> whole[i] == #[trigger] q[i]);
    assert(p[0] == q[0]);
    if p.len() > 1 && q.len() > 1 {
        assert(p[1] == q[1]);
    }
    if p.len() == 6 && q.len() == 6 {
        assert(p[4] == q[4] && p[5] == q[5]);
        let (a, b) = (c as int, d as int);
        assert(0 <= a < 32 && 0 <= b < 32);
        assert(a / 16 == b / 16);
        assert(a % 16 == b % 16);
        assert(a == b);
    }
    assert(c == d);
    assert(x =~= whole.skip(p.len() as int));
    assert(y =~= whole.skip(p.len() as int));
}

/// No two texts are quoted the same way.
pub proof fn law_quoting_is_injective(a: Text, b: Text)
    requires
        json_string(a) == json_string(b),
    ensures
        a == b,
{
    let (x, y) = (json_chars(a), json_chars(b));
    assert(json_string(a).len() == x.len() + 2 && json_string(b).len() == y.len() + 2);
    assert(x =~= json_string(a).subrange(1, x.len() as int + 1));
    assert(y =~= json_string(b).subrange(1, x.len() as int + 1));
    lemma_json_chars_injective(a, b);
}

proof fn lemma_json_chars_injective(a: Text, b: Text)
    requires
        json_chars(a) == json_chars(b),
    ensures
        a == b,
    decreases a.len(),
{
    if a.len() == 0 || b.len() == 0 {
        if a.len() > 0 {
            lemma_json_char(a[0]);
            assert(json_chars(a).len() > 0);
            assert(json_chars(b).len() == 0);
        }
        if b.len() > 0 {
            lemma_json_char(b[0]);
            assert(json_chars(b).len() > 0);
            assert(json_chars(a).len() == 0);
        }
        assert(a =~= b);
    } else {
        lemma_json_char_prefix(
            a[0],
            b[0],
            json_chars(a.drop_first()),
            json_chars(b.drop_first()),
        );
        lemma_json_chars_injective(a.drop_first(), b.drop_first());
        assert(a =~= seq![a[0]] + a.drop_first());
        assert(b =~= seq![b[0]] + b.drop_first());
    }
}

/// A new document shows its title twice and its summary once, each on its own line,
/// and two documents differ in nothing else.
pub proof fn law_documents_show_title_and_summary(title: Text, summary: Text)
    ensures
        ({
            let shown = document(title, summary);
            &&& contains_text(shown, "\ntitle: "@ + title + "\nsummary: "@ + summary + "\n"@)
            &&& contains_text(shown, "\n# "@ + title + "\n"@)
            &&& starts_with(shown, "---\n"@)
        }),
{
    reveal_strlit("\n");
    reveal_strlit("---\n");
    reveal_strlit("---\ntitle: ");
    reveal_strlit("\ntitle: ");
    reveal_strlit("\nsummary: ");
    reveal_strlit("\n# ");
    reveal_strlit("\ntags: [project-context]\n---\n# ");
    reveal_strlit("\n\n<!-- Maintained by an authorized Project Context workflow. -->\n");
    let shown = document(title, summary);
    let first = "---\ntitle: "@;
    let tags = "\ntags: [project-context]\n---\n# "@;
    let end = "\n\n<!-- Maintained by an authorized Project Context workflow. -->\n"@;
    let a = first.take(3);
    assert(first =~= a + "\ntitle: "@);
    let head = "\ntitle: "@ + title + "\nsummary: "@ + summary + "\n"@;
    let after = tags.drop_first() + title + end;
    assert(tags =~= "\n"@ + tags.drop_first());
    assert(shown =~= a + head + after);
    lemma_contained(shown, a, head, after);
    let n = tags.len() - 3;
    assert(tags =~= tags.take(n) + "\n# "@);
    assert(end =~= "\n"@ + end.drop_first());
    let before = first + title + "\nsummary: "@ + summary + tags.take(n);
    let heading = "\n# "@ + title + "\n"@;
    assert(shown =~= before + heading + end.drop_first());
    lemma_contained(shown, before, heading, end.drop_first());
    assert(shown.subrange(0, 4) =~= "---\n"@);
}

/// The manifest begins with the version, the quoted id and the quoted name, which is
/// that of the project with `Project Context` behind it; what follows is the same for
/// all Libraries. So are all other files.
pub proof fn law_scaffolds_differ_in_id_and_name(a: Text, p: Text, b: Text, q: Text, k: int)
    ensures
        ({
            let start = "schema_version: \"1\"\nid: "@ + json_string(a) + "\nname: "@
                + json_string(p + " Project Context"@);
            let other = "schema_version: \"1\"\nid: "@ + json_string(b) + "\nname: "@
                + json_string(q + " Project Context"@);
            let contents = scaffold(a, p)[0].contents;
            &&& scaffold(a, p).len() == 7
            &&& scaffold(a, p)[0].path == "okf-library.yaml"@
            &&& starts_with(contents, start)
            &&& contents.skip(start.len() as int) == scaffold(b, q)[0].contents.skip(
                other.len() as int,
            )
            &&& 1 <= k < 7 ==> scaffold(a, p)[k] == scaffold(b, q)[k]
        }),
{
    let start = "schema_version: \"1\"\nid: "@ + json_string(a) + "\nname: "@ + json_string(
        p + " Project Context"@,
    );
    let other = "schema_version: \"1\"\nid: "@ + json_string(b) + "\nname: "@ + json_string(
        q + " Project Context"@,
    );
    assert(manifest(a, p).subrange(0, start.len() as int) =~= start);
    assert(manifest(a, p).skip(start.len() as int) =~= MANIFEST_REST@);
    assert(manifest(b, q).skip(other.len() as int) =~= MANIFEST_REST@);
}

/// A Library is initialized exactly where its id is portable and nothing is in its
/// place, or what is there may be replaced. What is there is then removed, the profile
/// is a new one, and the files are those of a new Library under the profile's name.
pub proof fn law_initializing(
    root: Text,
    present: bool,
    force: bool,
    id: Text,
    project: Option<Text>,
    directory: Option<Text>,
)
    ensures
        ({
            let done = initialized(root, present, force, id, project, directory);
            &&& done is Ok <==> library_id_verdict(id) is Ok && (!present || force)
            &&& library_id_verdict(id) matches Err(error) ==> done == Err::<
                InitializationView,
                ErrorView,
            >(error)
            &&& library_id_verdict(id) is Ok && present && !force ==> done == Err::<
                InitializationView,
                ErrorView,
            >(ErrorView::LibraryExists { root })
            &&& done is Ok ==> {
                &&& done->Ok_0.reset == present
                &&& done->Ok_0.profile == new_profile_view(project, directory, id)
                &&& done->Ok_0.files == scaffold(id, done->Ok_0.profile.project)
            }
        }),
{
}

/// Every line of the result that is not blank was there before, or is one of the three
/// that keep the files of the runtime out of Git.
pub proof fn law_nothing_else_is_ignored(content: Text, line: Text)
    requires
        has_line(ignoring_runtime(content), line),
        line.len() > 0,
    ensures
        has_line(content, line) || line == "/cache/"@ || line == "/libraries.json"@ || line
            == "/state/"@,
{
    reveal_strlit("/cache/");
    reveal_strlit("/libraries.json");
    reveal_strlit("/state/");
    let (a, b, c) = ("/cache/"@, "/libraries.json"@, "/state/"@);
    let first = with_line(content, a);
    let second = with_line(first, b);
    lemma_with_line_only(second, c, line);
    lemma_with_line_only(first, b, line);
    lemma_with_line_only(content, a, line);
}

/// Adding a line adds no other.
proof fn lemma_with_line_only(content: Text, added: Text, line: Text)
    requires
        !added.contains('\n'),
        line.len() > 0,
    ensures
        has_line(with_line(content, added), line) ==> has_line(content, line) || trimmed(added)
            == line,
{
    if has_line(with_line(content, added), line) && !has_line(content, added) {
        let whole = with_line(content, added);
        let none = Seq::<char>::empty();
        let lines = pieces(whole, '\n');
        let i = choose|i: int| 0 <= i < lines.len() && trimmed(#[trigger] lines[i]) == line;
        lemma_pieces_single(added, '\n');
        lemma_pieces_concat(added, none, '\n');
        assert(pieces(none, '\n') =~= seq![none]);
        assert(added.push('\n') + none =~= added.push('\n'));
        let tail = pieces(added.push('\n'), '\n');
        assert(tail =~= seq![added, none]);
        assert(trimmed(none).len() == 0);
        if content.len() == 0 {
            assert(whole =~= added.push('\n'));
            assert(i == 0);
        } else {
            let ended = line_ended(content);
            let start = ended.drop_last();
            assert(ended =~= start.push('\n'));
            assert(whole =~= start.push('\n') + added.push('\n'));
            lemma_pieces_concat(start, added.push('\n'), '\n');
            let before = pieces(start, '\n');
            if i < before.len() {
                assert(lines[i] == before[i]);
                if content.last() == '\n' {
                    assert(content =~= start.push('\n') + none);
                    lemma_pieces_concat(start, none, '\n');
                    assert(pieces(content, '\n')[i] == before[i]);
                } else {
                    assert(start =~= content);
                    assert(pieces(content, '\n')[i] == before[i]);
                }
            } else if i == before.len() {
                assert(lines[i] == added);
            } else {
                assert(lines[i] == none);
            }
        }
    }
}

} // verus!
