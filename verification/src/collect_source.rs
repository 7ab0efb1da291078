//! A corpus from the source files of a repository.
//!
//! Walking the repository and reading its files is left to the caller.
use vstd::prelude::*;

use crate::failure::Failure;
use crate::path;
use crate::path_order;
use crate::text;

verus! {

/// Where a corpus is written.
pub const DATA_DIR: &'static str = "data";

/// What to collect, and under which name to write it.
#[derive(Debug, PartialEq, Eq)]
pub struct Config {
    pub repo: String,
    pub output: Option<String>,
}

/// What a [`Config`] says.
pub struct ConfigView {
    pub repo: Seq<char>,
    pub output: Option<Seq<char>>,
}

impl View for Config {
    type V = ConfigView;

    open spec fn view(&self) -> ConfigView {
        ConfigView {
            repo: self.repo@,
            output: match self.output {
                Some(o) => Some(o@),
                None => None,
            },
        }
    }
}

/// What arguments from place `i` on come to, after those before it gave `repo` and `output`: the
/// configuration, or a message about the first argument that is wrong.
pub open spec fn parsed_from(
    args: Seq<Seq<char>>,
    i: int,
    repo: Option<Seq<char>>,
    output: Option<Seq<char>>,
) -> Result<ConfigView, Seq<char>>
    decreases args.len() - i,
{
    if i >= args.len() {
        match repo {
            Some(r) => Ok(ConfigView { repo: r, output }),
            None => Err("--repo is required"@),
        }
    } else if args[i] == "--repo"@ {
        if i + 1 < args.len() {
            parsed_from(args, i + 2, Some(args[i + 1]), output)
        } else {
            Err("--repo requires a repository path"@)
        }
    } else if args[i] == "--output"@ {
        if i + 1 < args.len() {
            parsed_from(args, i + 2, repo, Some(args[i + 1]))
        } else {
            Err("--output requires a .txt file name"@)
        }
    } else if args[i] == "-h"@ || args[i] == "--help"@ {
        Err("Usage: collect-source --repo <path> [--output <file.txt>]"@)
    } else {
        Err("unsupported argument: "@ + args[i])
    }
}

/// Reads the arguments: see [`parsed_from`].
pub fn parse_args(args: &Vec<String>) -> (r: Result<Config, Failure>)
    requires
        args@.len() < usize::MAX,
    ensures
        match r {
            Ok(config) => parsed_from(text::text_views(args@), 0, None, None) == Ok::<
                ConfigView,
                Seq<char>,
            >(config@),
            Err(e) => parsed_from(text::text_views(args@), 0, None, None) == Err::<
                ConfigView,
                Seq<char>,
            >(e.message@) && e.cause is None,
        },
{
    let ghost views = text::text_views(args@);
    let mut repo: Option<String> = None;
    let mut output: Option<String> = None;
    let mut i: usize = 0;
    while i < args.len()
        invariant
            i <= args@.len() < usize::MAX,
            views == text::text_views(args@),
            parsed_from(views, 0, None, None) == parsed_from(
                views,
                i as int,
                match repo {
                    Some(x) => Some(x@),
                    None => None,
                },
                match output {
                    Some(x) => Some(x@),
                    None => None,
                },
            ),
        decreases args.len() - i,
    {
        let arg = args[i].as_str();
        if text::same_text(arg, "--repo") {
            if i + 1 >= args.len() {
                return Err(Failure::new("--repo requires a repository path"));
            }
            repo = Some(args[i + 1].clone());
            i += 2;
        } else if text::same_text(arg, "--output") {
            if i + 1 >= args.len() {
                return Err(Failure::new("--output requires a .txt file name"));
            }
            output = Some(args[i + 1].clone());
            i += 2;
        } else if text::same_text(arg, "-h") || text::same_text(arg, "--help") {
            return Err(Failure::new("Usage: collect-source --repo <path> [--output <file.txt>]"));
        } else {
            let mut message = "unsupported argument: ".to_owned();
            message.append(arg);
            return Err(Failure::of(message));
        }
    }
    match repo {
        Some(r) => Ok(Config { repo: r, output }),
        None => Err(Failure::new("--repo is required")),
    }
}

/// The name of the file that a corpus is written to, or why there is none.
pub open spec fn corpus_name(repo: Seq<char>, requested: Option<Seq<char>>) -> Result<
    Seq<char>,
    Seq<char>,
> {
    match requested {
        Some(p) => match path::file_name(p) {
            Some(name) => Ok(name),
            None => Err("--output must include a file name"@),
        },
        None => match path::file_name(repo) {
            Some(name) => Ok(name + ".txt"@),
            None => Ok("repository"@ + ".txt"@),
        },
    }
}

/// The file that a corpus is written to: always in the data directory, and always a text file.
pub open spec fn corpus_path(repo: Seq<char>, requested: Option<Seq<char>>) -> Result<
    Seq<char>,
    Seq<char>,
> {
    match corpus_name(repo, requested) {
        Ok(name) => {
            let p = path::join(DATA_DIR@, name);
            if path::extension(p) == Some("txt"@) {
                Ok(p)
            } else {
                Err("--output must end in .txt"@)
            }
        },
        Err(e) => Err(e),
    }
}

/// The file that a corpus is written to: see [`corpus_path`].
pub fn output_path(repo: &str, requested: Option<&str>) -> (r: Result<String, Failure>)
    ensures
        match r {
            Ok(p) => corpus_path(
                repo@,
                match requested {
                    Some(x) => Some(x@),
                    None => None,
                },
            ) == Ok::<Seq<char>, Seq<char>>(p@),
            Err(e) => corpus_path(
                repo@,
                match requested {
                    Some(x) => Some(x@),
                    None => None,
                },
            ) == Err::<Seq<char>, Seq<char>>(e.message@) && e.cause is None,
        },
{
    let name = match requested {
        Some(p) => match path::path_file_name(p) {
            Some(name) => name,
            None => {
                return Err(Failure::new("--output must include a file name"));
            },
        },
        None => {
            let mut name = match path::path_file_name(repo) {
                Some(name) => name,
                None => "repository".to_owned(),
            };
            name.append(".txt");
            name
        },
    };
    let p = path::path_join(DATA_DIR, name.as_str());
    match path::path_extension(p.as_str()) {
        Some(ext) => {
            if text::same_text(ext.as_str(), "txt") {
                return Ok(p);
            }
        },
        None => {},
    }
    Err(Failure::new("--output must end in .txt"))
}

/// Whatever is asked for, a corpus is written to the data directory itself.
pub proof fn law_corpus_stays_in_the_data_directory(
    repo: Seq<char>,
    requested: Option<Seq<char>>,
)
    requires
        corpus_path(repo, requested) is Ok,
    ensures
        ({
            let name = corpus_name(repo, requested)->Ok_0;
            &&& corpus_path(repo, requested) == Ok::<Seq<char>, Seq<char>>("data/"@ + name)
            &&& path::file_name("data/"@ + name) == Some(name)
            &&& forall|i: int| 0 <= i < name.len() ==> #[trigger] name[i] != '/'
        }),
{
    let name = corpus_name(repo, requested)->Ok_0;
    reveal_strlit("data");
    reveal_strlit("data/");
    reveal_strlit(".txt");
    reveal_strlit("repository");
    match requested {
        Some(p) => path::lemma_file_name_is_plain(p),
        None => {
            let stem = match path::file_name(repo) {
                Some(n) => n,
                None => "repository"@,
            };
            if path::file_name(repo) is Some {
                path::lemma_file_name_is_plain(repo);
            }
            assert(name =~= stem + ".txt"@);
            assert forall|i: int| 0 <= i < name.len() implies #[trigger] name[i] != '/' by {
                if i < stem.len() {
                    assert(name[i] == stem[i]);
                }
            }
        },
    }
    assert(path::is_name(name));
    assert(!path::is_absolute(name)) by {
        assert(name[0] != '/');
    }
    assert(path::join(DATA_DIR@, name) =~= "data/"@ + name);
    path::lemma_name_in_directory("data/"@, name);
}

/// The names of directories that hold nothing worth collecting.
pub open spec fn is_skipped_name(name: Seq<char>) -> bool {
    ||| name == ".git"@
    ||| name == ".hg"@
    ||| name == ".svn"@
    ||| name == ".idea"@
    ||| name == ".vscode"@
    ||| name == "target"@
    ||| name == "node_modules"@
    ||| name == "dist"@
    ||| name == "build"@
    ||| name == ".next"@
    ||| name == "coverage"@
    ||| name == "__pycache__"@
}

/// Whether a directory is passed over.
pub fn should_skip_dir(p: &str) -> (yes: bool)
    ensures
        yes == (match path::file_name(p@) {
            Some(name) => is_skipped_name(name),
            None => false,
        }),
{
    match path::path_file_name(p) {
        Some(name) => {
            let n = name.as_str();
            text::same_text(n, ".git") || text::same_text(n, ".hg") || text::same_text(n, ".svn")
                || text::same_text(n, ".idea") || text::same_text(n, ".vscode")
                || text::same_text(n, "target") || text::same_text(n, "node_modules")
                || text::same_text(n, "dist") || text::same_text(n, "build")
                || text::same_text(n, ".next") || text::same_text(n, "coverage")
                || text::same_text(n, "__pycache__")
        },
        None => false,
    }
}

/// The extensions of files that are collected.
pub open spec fn is_source_extension(ext: Seq<char>) -> bool {
    ||| ext == "rs"@
    ||| ext == "toml"@
    ||| ext == "js"@
    ||| ext == "jsx"@
    ||| ext == "ts"@
    ||| ext == "tsx"@
    ||| ext == "mjs"@
    ||| ext == "cjs"@
    ||| ext == "py"@
    ||| ext == "go"@
    ||| ext == "java"@
    ||| ext == "kt"@
    ||| ext == "kts"@
    ||| ext == "c"@
    ||| ext == "h"@
    ||| ext == "cc"@
    ||| ext == "cpp"@
    ||| ext == "hpp"@
    ||| ext == "cs"@
    ||| ext == "swift"@
    ||| ext == "rb"@
    ||| ext == "php"@
    ||| ext == "sh"@
    ||| ext == "bash"@
    ||| ext == "zsh"@
    ||| ext == "fish"@
    ||| ext == "html"@
    ||| ext == "css"@
    ||| ext == "scss"@
    ||| ext == "json"@
    ||| ext == "yaml"@
    ||| ext == "yml"@
    ||| ext == "sql"@
    ||| ext == "md"@
}

/// Whether a file is collected.
pub fn is_source_file(p: &str) -> (yes: bool)
    ensures
        yes == (match path::extension(p@) {
            Some(ext) => is_source_extension(ext),
            None => false,
        }),
{
    match path::path_extension(p) {
        Some(ext) => {
            let e = ext.as_str();
            text::same_text(e, "rs") || text::same_text(e, "toml") || text::same_text(e, "js")
                || text::same_text(e, "jsx") || text::same_text(e, "ts") || text::same_text(e, "tsx")
                || text::same_text(e, "mjs") || text::same_text(e, "cjs")
                || text::same_text(e, "py") || text::same_text(e, "go")
                || text::same_text(e, "java") || text::same_text(e, "kt")
                || text::same_text(e, "kts") || text::same_text(e, "c") || text::same_text(e, "h")
                || text::same_text(e, "cc") || text::same_text(e, "cpp")
                || text::same_text(e, "hpp") || text::same_text(e, "cs")
                || text::same_text(e, "swift") || text::same_text(e, "rb")
                || text::same_text(e, "php") || text::same_text(e, "sh")
                || text::same_text(e, "bash") || text::same_text(e, "zsh")
                || text::same_text(e, "fish") || text::same_text(e, "html")
                || text::same_text(e, "css") || text::same_text(e, "scss")
                || text::same_text(e, "json") || text::same_text(e, "yaml")
                || text::same_text(e, "yml") || text::same_text(e, "sql")
                || text::same_text(e, "md")
        },
        None => false,
    }
}

/// What a directory entry is.
#[derive(Debug, Clone, Copy, PartialEq, Eq, Structural)]
pub enum EntryKind {
    Directory,
    File,
    Other,
}

/// An entry of a directory, by its whole path.
#[derive(Debug)]
pub struct DirectoryEntry {
    pub path: String,
    pub kind: EntryKind,
}

/// A walk over the directories of a repository: those still to be listed, and the files found.
#[derive(Debug)]
pub struct SourceWalk {
    pub pending: Vec<String>,
    pub files: Vec<String>,
}

/// Whether the walk goes into an entry.
pub open spec fn is_entered(entry: DirectoryEntry) -> bool {
    entry.kind == EntryKind::Directory && !(match path::file_name(entry.path@) {
        Some(name) => is_skipped_name(name),
        None => false,
    })
}

/// Whether an entry is collected.
pub open spec fn is_collected(entry: DirectoryEntry) -> bool {
    entry.kind == EntryKind::File && match path::extension(entry.path@) {
        Some(ext) => is_source_extension(ext),
        None => false,
    }
}

/// The directories of a listing that the walk goes into.
pub open spec fn entered(entries: Seq<DirectoryEntry>) -> Seq<Seq<char>>
    decreases entries.len(),
{
    if entries.len() == 0 {
        Seq::empty()
    } else if is_entered(entries.last()) {
        entered(entries.drop_last()).push(entries.last().path@)
    } else {
        entered(entries.drop_last())
    }
}

/// The files of a listing that are collected.
pub open spec fn collected(entries: Seq<DirectoryEntry>) -> Seq<Seq<char>>
    decreases entries.len(),
{
    if entries.len() == 0 {
        Seq::empty()
    } else if is_collected(entries.last()) {
        collected(entries.drop_last()).push(entries.last().path@)
    } else {
        collected(entries.drop_last())
    }
}

impl SourceWalk {
    /// A walk that starts at a repository. `is_dir` tells whether that is a directory.
    pub fn begin(repo: &str, is_dir: bool) -> (r: Result<SourceWalk, Failure>)
        ensures
            match r {
                Ok(walk) => is_dir && text::text_views(walk.pending@) == seq![repo@]
                    && walk.files@.len() == 0,
                Err(e) => !is_dir && e.cause is None && e.message@ == "repository path is not a directory: "@
                    + path::path_debug_text(repo@),
            },
    {
        if !is_dir {
            let mut message = "repository path is not a directory: ".to_owned();
            message.append(path::path_debug(repo).as_str());
            return Err(Failure::of(message));
        }
        let mut pending: Vec<String> = Vec::new();
        pending.push(repo.to_owned());
        assert(text::text_views(pending@) =~= seq![repo@]);
        Ok(SourceWalk { pending, files: Vec::new() })
    }

    /// The next directory to be listed, while one is left.
    pub fn next_directory(&mut self) -> (dir: Option<String>)
        ensures
            match dir {
                Some(d) => old(self).pending@.len() > 0 && d == old(self).pending@.last()
                    && final(self).pending@ == old(self).pending@.drop_last(),
                None => old(self).pending@.len() == 0 && final(self).pending@ == old(self).pending@,
            },
            final(self).files == old(self).files,
    {
        self.pending.pop()
    }

    /// Takes the listing of a directory in.
    pub fn listed(&mut self, entries: &Vec<DirectoryEntry>)
        ensures
            text::text_views(final(self).pending@) == text::text_views(old(self).pending@)
                + entered(entries@),
            text::text_views(final(self).files@) == text::text_views(old(self).files@) + collected(
                entries@,
            ),
    {
        let ghost pending = text::text_views(self.pending@);
        let ghost files = text::text_views(self.files@);
        let mut i: usize = 0;
        assert(pending + entered(entries@.take(0)) =~= pending);
        assert(files + collected(entries@.take(0)) =~= files);
        while i < entries.len()
            invariant
                i <= entries@.len(),
                text::text_views(self.pending@) == pending + entered(entries@.take(i as int)),
                text::text_views(self.files@) == files + collected(entries@.take(i as int)),
            decreases entries.len() - i,
        {
            let entry = &entries[i];
            let ghost pending_before = self.pending@;
            let ghost files_before = self.files@;
            proof {
                assert(entries@.take(i + 1).drop_last() =~= entries@.take(i as int));
                assert(entries@.take(i + 1).last() == entries@[i as int]);
            }
            match entry.kind {
                EntryKind::Directory => {
                    if !should_skip_dir(entry.path.as_str()) {
                        self.pending.push(entry.path.clone());
                        assert(text::text_views(self.pending@) =~= text::text_views(
                            pending_before,
                        ).push(entry.path@));
                    }
                },
                EntryKind::File => {
                    if is_source_file(entry.path.as_str()) {
                        self.files.push(entry.path.clone());
                        assert(text::text_views(self.files@) =~= text::text_views(
                            files_before,
                        ).push(entry.path@));
                    }
                },
                EntryKind::Other => {},
            }
            assert(text::text_views(self.pending@) =~= pending + entered(entries@.take(i + 1)));
            assert(text::text_views(self.files@) =~= files + collected(entries@.take(i + 1)));
            i += 1;
        }
        assert(entries@.take(i as int) =~= entries@);
    }

    /// The files that were found, in the order of their paths.
    pub fn finish(self) -> (files: Vec<String>)
        ensures
            path_order::in_order(text::text_views(files@)),
            text::text_views(files@).to_multiset() == text::text_views(self.files@).to_multiset(),
    {
        path_order::sort_paths(&self.files)
    }
}

/// A listing gives a file to the corpus if, and only if, it is a regular file with the extension
/// of a source file, and the walk goes into a directory if, and only if, it is not one of those
/// that are passed over.
pub proof fn law_listings_are_sifted(entries: Seq<DirectoryEntry>, p: Seq<char>)
    ensures
        collected(entries).contains(p) <==> exists|i: int|
            0 <= i < entries.len() && is_collected(#[trigger] entries[i]) && entries[i].path@ == p,
        entered(entries).contains(p) <==> exists|i: int|
            0 <= i < entries.len() && is_entered(#[trigger] entries[i]) && entries[i].path@ == p,
    decreases entries.len(),
{
    if entries.len() > 0 {
        let before = entries.drop_last();
        let last = entries.last();
        law_listings_are_sifted(before, p);
        assert(entries[entries.len() - 1] == last);
        assert forall|i: int| 0 <= i < before.len() implies #[trigger] entries[i] == before[i] by {}
        let files = collected(before);
        let dirs = entered(before);
        if is_collected(last) {
            assert(files.push(last.path@).last() == last.path@);
            assert forall|q: Seq<char>| files.contains(q) implies files.push(last.path@).contains(
                q,
            ) by {
                let k = choose|k: int| 0 <= k < files.len() && files[k] == q;
                assert(files.push(last.path@)[k] == q);
            }
        }
        if is_entered(last) {
            assert(dirs.push(last.path@).last() == last.path@);
            assert forall|q: Seq<char>| dirs.contains(q) implies dirs.push(last.path@).contains(
                q,
            ) by {
                let k = choose|k: int| 0 <= k < dirs.len() && dirs[k] == q;
                assert(dirs.push(last.path@)[k] == q);
            }
        }
    }
}

/// A source file: where it lies, and what it holds.
#[derive(Debug)]
pub struct SourceText {
    pub path: String,
    pub contents: String,
}

/// The name that a file goes by in a corpus: its path as seen from the repository, where it lies
/// there.
pub open spec fn corpus_entry(repo: Seq<char>, file: Seq<char>) -> Seq<char> {
    match path::below(file, repo) {
        Some(rest) => rest,
        None => file,
    }
}

/// One file of a corpus: a header line and the contents, which end with a line break.
pub open spec fn corpus_part(repo: Seq<char>, file: SourceText) -> Seq<char> {
    let head = "\n--- FILE: "@ + corpus_entry(repo, file.path@) + " ---\n"@ + file.contents@;
    if file.contents@.len() > 0 && file.contents@.last() == '\n' {
        head
    } else {
        head.push('\n')
    }
}

/// The files of a corpus, one after the other.
pub open spec fn corpus(repo: Seq<char>, files: Seq<SourceText>) -> Seq<char>
    decreases files.len(),
{
    if files.len() == 0 {
        Seq::empty()
    } else {
        corpus(repo, files.drop_last()) + corpus_part(repo, files.last())
    }
}

fn ends_with_line_break(s: &str) -> (yes: bool)
    ensures
        yes == (s@.len() > 0 && s@.last() == '\n'),
{
    let chars = text::to_chars(s);
    chars.len() > 0 && chars[chars.len() - 1] == '\n'
}

/// The files of a corpus, one after the other.
pub fn concatenate_files(repo: &str, files: &Vec<SourceText>) -> (s: String)
    ensures
        s@ == corpus(repo@, files@),
{
    let mut s = String::new();
    let mut i: usize = 0;
    while i < files.len()
        invariant
            i <= files@.len(),
            s@ == corpus(repo@, files@.take(i as int)),
        decreases files.len() - i,
    {
        let file = &files[i];
        proof {
            assert(files@.take(i as int + 1).drop_last() =~= files@.take(i as int));
            assert(files@.take(i as int + 1).last() == files@[i as int]);
        }
        let ghost before = s@;
        s.append("\n--- FILE: ");
        match path::path_below(file.path.as_str(), repo) {
            Some(rest) => {
                s.append(rest.as_str());
            },
            None => {
                s.append(file.path.as_str());
            },
        }
        s.append(" ---\n");
        s.append(file.contents.as_str());
        if !ends_with_line_break(file.contents.as_str()) {
            s.push('\n');
        }
        assert(s@ =~= before + corpus_part(repo@, *file));
        i += 1;
    }
    assert(files@.take(i as int) =~= files@);
    s
}

/// Options are read in any place, each takes the argument behind it, and of two the later one
/// counts; only the repository has to be given.
pub proof fn law_options_are_read(repo: Seq<char>, output: Seq<char>, earlier: Seq<char>)
    ensures
        parsed_from(seq!["--repo"@, repo], 0, None, None) == Ok::<ConfigView, Seq<char>>(
            ConfigView { repo, output: None },
        ),
        parsed_from(seq!["--repo"@, repo, "--output"@, output], 0, None, None) == Ok::<
            ConfigView,
            Seq<char>,
        >(ConfigView { repo, output: Some(output) }),
        parsed_from(
            seq!["--output"@, output, "--repo"@, earlier, "--repo"@, repo],
            0,
            None,
            None,
        ) == Ok::<ConfigView, Seq<char>>(ConfigView { repo, output: Some(output) }),
        parsed_from(seq!["--output"@, output], 0, None, None) is Err,
{
    reveal_with_fuel(parsed_from, 5);
    reveal_strlit("--repo");
    reveal_strlit("--output");
    assert("--repo"@.len() == 6);
    assert("--output"@.len() == 8);
}

/// A corpus holds its files one after the other, and it makes no difference how they are divided.
/// The part of a file is a line that begins it, then all that the file holds, and it always ends
/// with a line break.
pub proof fn law_a_corpus_holds_its_files(
    repo: Seq<char>,
    a: Seq<SourceText>,
    b: Seq<SourceText>,
    file: SourceText,
)
    ensures
        corpus(repo, a + b) == corpus(repo, a) + corpus(repo, b),
        ({
            let part = corpus(repo, seq![file]);
            let head = "\n--- FILE: "@ + corpus_entry(repo, file.path@) + " ---\n"@;
            &&& (head + file.contents@).is_prefix_of(part)
            &&& part.last() == '\n'
            &&& part.len() <= head.len() + file.contents@.len() + 1
            &&& file.contents@.len() > 0 && file.contents@.last() == '\n' ==> part == head
                + file.contents@
        }),
    decreases b.len(),
{
    let head = "\n--- FILE: "@ + corpus_entry(repo, file.path@) + " ---\n"@;
    assert(seq![file].drop_last() == Seq::<SourceText>::empty());
    assert(corpus(repo, Seq::<SourceText>::empty()) == Seq::<char>::empty());
    assert(corpus(repo, seq![file]) == corpus_part(repo, file));
    if file.contents@.len() > 0 {
        assert((head + file.contents@).last() == file.contents@.last());
    }
    if b.len() == 0 {
        assert(a + b == a);
        assert(corpus(repo, a) + corpus(repo, b) == corpus(repo, a));
    } else {
        law_a_corpus_holds_its_files(repo, a, b.drop_last(), file);
        assert((a + b).drop_last() == a + b.drop_last());
        assert((a + b).last() == b.last());
        assert(corpus(repo, a) + corpus(repo, b.drop_last()) + corpus_part(repo, b.last())
            == corpus(repo, a) + (corpus(repo, b.drop_last()) + corpus_part(repo, b.last())));
    }
}

/// A corpus is named as was asked for, where that is the name of a text file, and else after its
/// repository.
pub proof fn law_a_corpus_is_named_as_asked_for(
    repo: Seq<char>,
    requested: Option<Seq<char>>,
    stem: Seq<char>,
)
    requires
        stem.len() > 0,
        forall|i: int| 0 <= i < stem.len() ==> #[trigger] stem[i] != '/',
    ensures
        requested matches Some(p) ==> path::file_name(p) == Some(stem + ".txt"@) ==> corpus_path(
            repo,
            requested,
        ) == Ok::<Seq<char>, Seq<char>>("data/"@ + (stem + ".txt"@)),
        requested is None && path::file_name(repo) == Some(stem) ==> corpus_path(repo, requested)
            == Ok::<Seq<char>, Seq<char>>("data/"@ + (stem + ".txt"@)),
        requested is None && path::file_name(repo) is None ==> corpus_name(repo, requested) == Ok::<
            Seq<char>,
            Seq<char>,
        >("repository.txt"@),
        requested matches Some(p) ==> path::file_name(p) is None ==> corpus_path(repo, requested)
            is Err,
{
    reveal_strlit("data");
    reveal_strlit("data/");
    reveal_strlit("txt");
    reveal_strlit(".txt");
    reveal_strlit("repository");
    reveal_strlit("repository.txt");
    assert("repository"@ + ".txt"@ == "repository.txt"@);
    let name = stem + ".txt"@;
    assert(name == stem.push('.') + "txt"@);
    assert("data"@.last() == 'a');
    assert(name[0] == stem[0]);
    assert(path::join("data"@, name) == "data/"@ + name) by {
        assert("data"@.push('/') == "data/"@);
    }
    path::law_extensions_follow_the_last_dot("data/"@, stem, "txt"@, "txt"@);
}

/// Only regular files are collected, and only directories are gone into: nothing is both, and
/// anything else is neither.
pub proof fn law_files_are_collected_and_directories_entered(entry: DirectoryEntry)
    ensures
        is_collected(entry) ==> entry.kind == EntryKind::File && path::extension(entry.path@)
            is Some,
        is_entered(entry) ==> entry.kind == EntryKind::Directory,
        entry.kind == EntryKind::Directory && path::file_name(entry.path@) is None ==> is_entered(
            entry,
        ),
        entry.kind == EntryKind::File && path::extension(entry.path@) == Some("rs"@)
            ==> is_collected(entry),
        entry.kind == EntryKind::Directory && path::file_name(entry.path@) == Some("src"@)
            ==> is_entered(entry),
        entry.kind == EntryKind::Directory && path::file_name(entry.path@) == Some(".git"@)
            ==> !is_entered(entry),
{
    reveal_strlit("src");
    reveal_strlit(".git");
    reveal_strlit(".hg");
    reveal_strlit(".svn");
    reveal_strlit(".idea");
    reveal_strlit(".vscode");
    reveal_strlit("target");
    reveal_strlit("node_modules");
    reveal_strlit("dist");
    reveal_strlit("build");
    reveal_strlit(".next");
    reveal_strlit("coverage");
    reveal_strlit("__pycache__");
    assert("src"@[0] == 's');
    assert(".hg"@[0] == '.');
}

/// A file of a repository goes by its path as seen from there, and a file from elsewhere by its
/// whole path.
pub proof fn law_files_go_by_their_path_in_the_repository(
    repo: Seq<Seq<char>>,
    file: Seq<Seq<char>>,
)
    requires
        path::are_entries(repo),
        path::are_entries(file),
        repo.len() > 0,
        file.len() > 0,
    ensures
        corpus_entry(text::join(repo, '/'), text::join(repo + file, '/')) == text::join(file, '/'),
        !repo.is_prefix_of(file) ==> corpus_entry(text::join(repo, '/'), text::join(file, '/'))
            == text::join(file, '/'),
{
    path::law_paths_are_seen_from_their_directories(repo, file);
}

/// An option takes the place of what was given for it before, and leaves the other as it is.
pub proof fn law_later_options_count(
    args: Seq<Seq<char>>,
    i: int,
    repo: Option<Seq<char>>,
    output: Option<Seq<char>>,
)
    requires
        0 <= i < args.len() - 1,
    ensures
        args[i] == "--repo"@ ==> parsed_from(args, i, repo, output) == parsed_from(
            args,
            i + 2,
            Some(args[i + 1]),
            output,
        ),
        args[i] == "--output"@ ==> parsed_from(args, i, repo, output) == parsed_from(
            args,
            i + 2,
            repo,
            Some(args[i + 1]),
        ),
{
    reveal_strlit("--repo");
    reveal_strlit("--output");
    assert("--repo"@.len() == 6);
    assert("--output"@.len() == 8);
}

} // verus!
