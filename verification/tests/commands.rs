use rusty_gpt::collect_source::{
    self, concatenate_files, is_source_file, output_path, should_skip_dir, DirectoryEntry,
    EntryKind, SourceText, SourceWalk,
};
use rusty_gpt::path::path_below;
use rusty_gpt::path_order::sort_paths;
use rusty_gpt::train_tokenizer;
use std::path::Path;

fn words(args: &[&str]) -> Vec<String> {
    args.iter().map(|arg| arg.to_string()).collect()
}

// ---------------------------------------------------------------------------------------
// collect-source
// ---------------------------------------------------------------------------------------

fn collect_error(args: &[&str]) -> String {
    collect_source::parse_args(&words(args)).unwrap_err().to_text()
}

#[test]
fn parses_required_repo_arg() {
    let config = collect_source::parse_args(&words(&["--repo", "/tmp/example"])).unwrap();

    assert_eq!("/tmp/example", config.repo);
    assert_eq!(None, config.output);
}

#[test]
fn output_path_stays_in_data_dir() {
    let path = output_path("/tmp/example-repo", Some("/tmp/ignored/custom.txt")).unwrap();

    assert_eq!("data/custom.txt", path);
}

#[test]
fn detects_common_source_extensions() {
    assert!(is_source_file("src/main.rs"));
    assert!(is_source_file("package.json"));
    assert!(!is_source_file("image.png"));
}

#[test]
fn skips_generated_directories() {
    assert!(should_skip_dir("/repo/target"));
    assert!(should_skip_dir("/repo/node_modules"));
    assert!(!should_skip_dir("/repo/src"));
}

#[test]
fn the_last_of_two_repositories_counts() {
    let config = collect_source::parse_args(&words(&[
        "--repo", "a", "--output", "one.txt", "--repo", "b",
    ]))
    .unwrap();

    assert_eq!("b", config.repo);
    assert_eq!(Some("one.txt".to_string()), config.output);
}

#[test]
fn every_bad_collect_command_line_is_told_apart() {
    assert_eq!("--repo is required", collect_error(&[]));
    assert_eq!("--repo requires a repository path", collect_error(&["--repo"]));
    assert_eq!(
        "--output requires a .txt file name",
        collect_error(&["--repo", "x", "--output"])
    );
    assert_eq!(
        "Usage: collect-source --repo <path> [--output <file.txt>]",
        collect_error(&["--help"])
    );
    assert_eq!(
        "Usage: collect-source --repo <path> [--output <file.txt>]",
        collect_error(&["--repo", "x", "-h"])
    );
    assert_eq!("unsupported argument: --force", collect_error(&["--force"]));
}

#[test]
fn the_corpus_is_named_after_the_repository() {
    assert_eq!("data/example-repo.txt", output_path("/tmp/example-repo", None).unwrap());
    assert_eq!("data/repository.txt", output_path("/", None).unwrap());
}

#[test]
fn corpus_names_are_checked() {
    assert_eq!(
        "--output must include a file name",
        output_path("/tmp/x", Some("/")).unwrap_err().to_text()
    );
    assert_eq!(
        "--output must end in .txt",
        output_path("/tmp/x", Some("out.md")).unwrap_err().to_text()
    );
}

fn entry(path: &str, kind: EntryKind) -> DirectoryEntry {
    DirectoryEntry {
        path: path.to_string(),
        kind,
    }
}

#[test]
fn a_walk_collects_the_source_files_of_all_directories() {
    let mut walk = SourceWalk::begin("/repo", true).unwrap();
    while let Some(dir) = walk.next_directory() {
        let entries = match &dir[..] {
            "/repo" => vec![
                entry("/repo/src", EntryKind::Directory),
                entry("/repo/target", EntryKind::Directory),
                entry("/repo/main.rs", EntryKind::File),
                entry("/repo/logo.png", EntryKind::File),
                entry("/repo/link.rs", EntryKind::Other),
            ],
            "/repo/src" => vec![
                entry("/repo/src/b.rs", EntryKind::File),
                entry("/repo/src/a.rs", EntryKind::File),
            ],
            other => panic!("{other} should not be listed"),
        };
        walk.listed(&entries);
    }

    assert_eq!(
        vec!["/repo/main.rs", "/repo/src/a.rs", "/repo/src/b.rs"],
        walk.finish()
    );
}

#[test]
fn a_walk_needs_a_directory() {
    assert_eq!(
        "repository path is not a directory: \"/repo/main.rs\"",
        SourceWalk::begin("/repo/main.rs", false).unwrap_err().to_text()
    );
}

#[test]
fn paths_are_ordered_by_their_components() {
    let mixed = ["a/z.rs", "a-b/c.rs", "a.rs", "a/b.rs", "a", "B.rs"];
    let texts: Vec<String> = mixed.iter().map(|path| path.to_string()).collect();
    let mut paths: Vec<std::path::PathBuf> = mixed.iter().map(std::path::PathBuf::from).collect();
    paths.sort();

    let sorted = sort_paths(&texts);

    assert_eq!(vec!["B.rs", "a", "a/b.rs", "a/z.rs", "a-b/c.rs", "a.rs"], sorted);
    let expected: Vec<&str> = paths.iter().map(|path| path.to_str().unwrap()).collect();
    assert_eq!(expected, sorted);
}

#[test]
fn files_are_put_one_behind_the_other() {
    assert_eq!("", concatenate_files("repo", &Vec::new()));

    let joined = concatenate_files("work/repo/", &vec![
        SourceText {
            path: "work/repo/a.rs".to_string(),
            contents: "fn a() {}".to_string(),
        },
        SourceText {
            path: "work/repo/src/b.rs".to_string(),
            contents: "fn b() {}\n".to_string(),
        },
    ]);

    assert_eq!(
        "\n--- FILE: a.rs ---\nfn a() {}\n\n--- FILE: src/b.rs ---\nfn b() {}\n",
        joined
    );
    let elsewhere = SourceText {
        path: "other/c.rs".to_string(),
        contents: "x\n".to_string(),
    };
    assert_eq!(
        "\n--- FILE: other/c.rs ---\nx\n",
        concatenate_files("repo", &vec![elsewhere])
    );
}

#[test]
fn paths_are_seen_from_a_directory() {
    let paths = [
        "a/b/c.rs", "a//b/./c.rs", "./a/b", "/", "/a/b/", "/./a", "a", "a/.", ".", "./.", "", "a/../b",
        "/a//b//c/",
    ];
    for path in paths {
        for base in paths {
            let expected = Path::new(path).strip_prefix(base).ok();
            assert_eq!(
                expected.map(|rest| rest.to_str().unwrap().to_string()),
                path_below(path, base),
                "{path:?} from {base:?}"
            );
        }
    }
}

// ---------------------------------------------------------------------------------------
// train-tokenizer
// ---------------------------------------------------------------------------------------

fn train_error(args: &[&str]) -> String {
    train_tokenizer::parse_args(&words(args)).unwrap_err().to_text()
}

#[test]
fn parses_required_args() {
    let config = train_tokenizer::parse_args(&words(&[
        "--corpus",
        "data/fafolang.txt",
        "--vocab-size",
        "2048",
        "--output",
        "checkpoints/tokenizer.json",
    ]))
    .unwrap();

    assert_eq!("data/fafolang.txt", config.corpus);
    assert_eq!(2048, config.vocab_size);
    assert_eq!("checkpoints/tokenizer.json", config.output);
}

#[test]
fn rejects_too_small_vocab() {
    let err = train_tokenizer::parse_args(&words(&[
        "--corpus",
        "data/fafolang.txt",
        "--vocab-size",
        "255",
        "--output",
        "checkpoints/tokenizer.json",
    ]))
    .expect_err("vocab below byte vocabulary should fail");

    assert!(err.to_text().contains("--vocab-size must be at least 256"));
}

#[test]
fn every_tokenizer_argument_is_needed() {
    assert_eq!("--corpus is required", train_error(&[]));
    assert_eq!("--vocab-size is required", train_error(&["--corpus", "x"]));
    assert_eq!(
        "--output is required",
        train_error(&["--corpus", "x", "--vocab-size", "256"])
    );
    assert_eq!("--corpus requires a path to a text file", train_error(&["--corpus"]));
    assert_eq!("--vocab-size requires an integer", train_error(&["--vocab-size"]));
    assert_eq!("--output requires a tokenizer JSON path", train_error(&["--output"]));
    assert_eq!("invalid --vocab-size value: many", train_error(&["--vocab-size", "many"]));
    assert_eq!("unsupported argument: --bogus", train_error(&["--bogus"]));
    assert_eq!(
        "Usage: train-tokenizer --corpus <path> --vocab-size <n> --output <path>",
        train_error(&["--help"])
    );
}

#[test]
fn roots_and_dots_come_before_names() {
    let paths = ["a", "!a", "../b", "./c", "/d", "-e", "/"];
    let mut expected: Vec<&Path> = paths.iter().map(Path::new).collect();
    expected.sort();
    let expected: Vec<&str> = expected.iter().map(|path| path.to_str().unwrap()).collect();
    let sorted = sort_paths(&words(&paths));

    assert_eq!(vec!["/", "/d", "./c", "../b", "!a", "-e", "a"], sorted);
    assert_eq!(expected, sorted);
}

#[test]
fn an_unreadable_vocabulary_size_is_explained() {
    let err = train_tokenizer::parse_args(&words(&["--vocab-size", "many"])).unwrap_err();
    assert_eq!("invalid --vocab-size value: many", err.to_text());
    assert_eq!(Some("invalid digit found in string".to_string()), err.cause);

    let err = train_tokenizer::parse_args(&words(&["--vocab-size"])).unwrap_err();
    assert_eq!(None, err.cause);
}
