use std::collections::BTreeMap;

use ssg::artifact::{ContentSource, OutputArtifact};
use ssg::generate::generate;
use ssg::scheduler::{BuildError, Command, Directive, Event, FailureKind, Scheduler, Stage, WriteOrder};
use ssg::targets::{TargetNotFoundError, Targets};
use url::Url;

/// What a renderer of these tests can report.
enum RenderError {
    Missing(TargetNotFoundError),
    Other(String),
}

type Renderer = fn(&Targets) -> Result<Vec<u8>, RenderError>;

/// The files of a finished build, by the place where each was written.
type Files = BTreeMap<String, Vec<u8>>;

fn inline_file(path: &str, content: &str) -> OutputArtifact<Renderer> {
    OutputArtifact::new(
        path.to_string(),
        ContentSource::InlineBytes(content.as_bytes().to_vec()),
    )
}

fn remote_file(path: &str, url: &str) -> OutputArtifact<Renderer> {
    OutputArtifact::new(
        path.to_string(),
        ContentSource::RemoteFetch(Url::parse(url).unwrap()),
    )
}

fn rendered_file(path: &str, renderer: Renderer) -> OutputArtifact<Renderer> {
    OutputArtifact::new(path.to_string(), ContentSource::DeferredRender(renderer))
}

fn link_to_index(targets: &Targets) -> Result<Vec<u8>, RenderError> {
    match targets.path_of("/index.html") {
        Ok(reference) => Ok(format!("<a href=\"{reference}\">home</a>").into_bytes()),
        Err(error) => Err(RenderError::Missing(error)),
    }
}

fn link_to_sibling(targets: &Targets) -> Result<Vec<u8>, RenderError> {
    match targets.path_of("/b.html") {
        Ok(reference) => Ok(format!("{} -> {reference}", targets.current_path()).into_bytes()),
        Err(error) => Err(RenderError::Missing(error)),
    }
}

fn link_to_nowhere(targets: &Targets) -> Result<Vec<u8>, RenderError> {
    match targets.path_of("/nowhere.html") {
        Ok(reference) => Ok(reference.into_bytes()),
        Err(error) => Err(RenderError::Missing(error)),
    }
}

fn own_reference(targets: &Targets) -> Result<Vec<u8>, RenderError> {
    Ok(targets.current_path().into_bytes())
}

fn always_fails(_: &Targets) -> Result<Vec<u8>, RenderError> {
    Err(RenderError::Other("no content".to_string()))
}

/// A fetch that never leaves the test: the text of the URL, or an error for a
/// host named `down`.
fn fetch_locally(url: &Url) -> Result<Vec<u8>, String> {
    if url.host_str() == Some("down") {
        Err(format!("cannot reach {url}"))
    } else {
        Ok(url.as_str().as_bytes().to_vec())
    }
}

fn write(files: &mut Files, writes: &mut usize, order: WriteOrder) -> Event {
    *writes += 1;
    files.insert(order.destination, order.bytes);
    Event::Written { index: order.index }
}

fn produce(command: Command<Renderer>, files: &mut Files, writes: &mut usize) -> Event {
    match command {
        Command::Write(order) => write(files, writes, order),
        Command::Fetch { index, url } => match fetch_locally(&url) {
            Ok(bytes) => Event::Produced { index, bytes },
            Err(detail) => Event::Failed { index, kind: FailureKind::Fetch, detail },
        },
        Command::Render { index, renderer, targets } => match renderer(&targets) {
            Ok(bytes) => Event::Produced { index, bytes },
            Err(RenderError::Missing(error)) => Event::Failed {
                index,
                kind: FailureKind::TargetNotFound,
                detail: error.target().to_string(),
            },
            Err(RenderError::Other(detail)) => Event::Failed {
                index,
                kind: FailureKind::Render,
                detail,
            },
        },
    }
}

/// Drives a build to its end, the commands taken in the order that `order`
/// gives to their positions. Returns the result, the files written and the
/// number of writes.
fn execute(
    root: &str,
    artifacts: Vec<OutputArtifact<Renderer>>,
    order: fn(usize, usize) -> usize,
) -> (Result<(), BuildError>, Files, usize) {
    let (mut scheduler, commands): (Scheduler, Vec<Command<Renderer>>) =
        generate(root.to_string(), artifacts);
    let mut files = Files::new();
    let mut writes = 0;
    let count = commands.len();
    let mut slots: Vec<Option<Command<Renderer>>> = commands.into_iter().map(Some).collect();
    for turn in 0..count {
        let command = slots[order(turn, count)].take().unwrap();
        let mut event = produce(command, &mut files, &mut writes);
        loop {
            match scheduler.step(event) {
                Directive::Write(order) => event = write(&mut files, &mut writes, order),
                Directive::Continue | Directive::Finish => break,
                Directive::Abort(error) => return (Err(error), files, writes),
                Directive::Ignore => panic!("the driver reported an event that does not fit"),
            }
        }
    }
    (scheduler.outcome().expect("every command was carried out"), files, writes)
}

fn forwards(turn: usize, _: usize) -> usize {
    turn
}

fn backwards(turn: usize, count: usize) -> usize {
    count - 1 - turn
}

fn text(files: &Files, place: &str) -> String {
    String::from_utf8(files[place].clone()).unwrap()
}

#[test]
fn index_and_about_page_are_generated() {
    let (result, files, writes) = execute(
        "out",
        vec![inline_file("/index.html", "hello"), rendered_file("/about.html", link_to_index)],
        forwards,
    );
    assert!(result.is_ok());
    assert_eq!(writes, 2);
    assert_eq!(files.len(), 2);
    assert_eq!(text(&files, "out/index.html"), "hello");
    assert_eq!(text(&files, "out/about.html"), "<a href=\"/\">home</a>");
}

#[test]
fn about_page_render_receives_the_root_for_the_index() {
    let (_, commands) = generate(
        "out".to_string(),
        vec![inline_file("/index.html", "hello"), rendered_file("/about.html", link_to_index)],
    );
    match &commands[1] {
        Command::Render { targets, .. } => {
            assert_eq!(targets.path_of("/index.html").unwrap(), "/");
        }
        _ => panic!("the about page is rendered"),
    }
}

#[test]
fn unique_paths_give_one_file_each_with_the_produced_bytes() {
    for order in [forwards as fn(usize, usize) -> usize, backwards] {
        let (result, files, writes) = execute(
            "site",
            vec![
                inline_file("/index.html", "hello"),
                remote_file("/logo.svg", "https://example.com/logo.svg"),
                rendered_file("/a.html", link_to_sibling),
                rendered_file("/b.html", own_reference),
                inline_file("/empty", ""),
            ],
            order,
        );
        assert!(result.is_ok());
        assert_eq!(writes, 5);
        assert_eq!(files.len(), 5);
        assert_eq!(text(&files, "site/index.html"), "hello");
        assert_eq!(text(&files, "site/logo.svg"), "https://example.com/logo.svg");
        assert_eq!(text(&files, "site/a.html"), "/a.html -> /b.html");
        assert_eq!(text(&files, "site/b.html"), "/b.html");
        assert_eq!(text(&files, "site/empty"), "");
    }
}

#[test]
fn duplicated_path_gives_one_file_and_no_failure() {
    for order in [forwards as fn(usize, usize) -> usize, backwards] {
        let (result, files, writes) = execute(
            "out",
            vec![
                inline_file("/index.html", "first"),
                inline_file("/about.html", "about"),
                inline_file("/index.html", "second"),
            ],
            order,
        );
        assert!(result.is_ok());
        assert_eq!(writes, 2);
        assert_eq!(files.len(), 2);
        assert_eq!(text(&files, "out/index.html"), "first");
        assert_eq!(text(&files, "out/about.html"), "about");
    }
}

#[test]
fn sibling_resolves_whatever_the_order_of_production() {
    for order in [forwards as fn(usize, usize) -> usize, backwards] {
        let (result, files, _) = execute(
            "out",
            vec![rendered_file("/a.html", link_to_sibling), rendered_file("/b.html", always_fails)],
            order,
        );
        assert!(result.is_err());
        if files.contains_key("out/a.html") {
            assert_eq!(text(&files, "out/a.html"), "/a.html -> /b.html");
        }
    }
    let (_, commands) = generate(
        "out".to_string(),
        vec![rendered_file("/a.html", link_to_sibling), rendered_file("/b.html", own_reference)],
    );
    match &commands[0] {
        Command::Render { renderer, targets, .. } => {
            assert!(matches!(renderer(targets), Ok(bytes) if bytes == b"/a.html -> /b.html"));
        }
        _ => panic!("the first page is rendered"),
    }
}

#[test]
fn one_failing_source_fails_the_build() {
    for order in [forwards as fn(usize, usize) -> usize, backwards] {
        let (result, files, _) = execute(
            "out",
            vec![inline_file("/good.html", "good"), rendered_file("/bad.html", always_fails)],
            order,
        );
        let error = result.unwrap_err();
        assert_eq!(error.path, "/bad.html");
        assert_eq!(error.kind, FailureKind::Render);
        assert_eq!(error.detail, "no content");
        assert!(!files.contains_key("out/bad.html"));
    }
}

#[test]
fn failed_fetch_fails_the_build() {
    let (result, files, _) = execute(
        "out",
        vec![inline_file("/good.html", "good"), remote_file("/logo.svg", "https://down/logo.svg")],
        forwards,
    );
    let error = result.unwrap_err();
    assert_eq!(error.path, "/logo.svg");
    assert_eq!(error.kind, FailureKind::Fetch);
    assert_eq!(error.detail, "cannot reach https://down/logo.svg");
    assert_eq!(text(&files, "out/good.html"), "good");
    assert_eq!(files.len(), 1);
}

#[test]
fn link_to_an_undeclared_path_fails_the_build() {
    let (result, _, _) = execute(
        "out",
        vec![inline_file("/index.html", "hello"), rendered_file("/about.html", link_to_nowhere)],
        forwards,
    );
    let error = result.unwrap_err();
    assert_eq!(error.path, "/about.html");
    assert_eq!(error.kind, FailureKind::TargetNotFound);
    assert_eq!(error.detail, "/nowhere.html");
}

#[test]
fn generate_refuses_no_declarations() {
    let (scheduler, commands) = generate(
        "out".to_string(),
        vec![
            inline_file("/a", "1"),
            inline_file("/a", "2"),
            inline_file("/a", "3"),
        ],
    );
    assert_eq!(scheduler.len(), 1);
    assert_eq!(commands.len(), 1);
    assert_eq!(scheduler.stage(0), Some(Stage::Writing));
    assert!(matches!(&commands[0], Command::Write(order) if order.bytes == b"1"));
}

#[test]
fn generate_for_no_artifacts_has_nothing_to_do() {
    let (result, files, writes) = execute("out", Vec::new(), forwards);
    assert!(result.is_ok());
    assert!(files.is_empty());
    assert_eq!(writes, 0);
}

#[test]
fn fetch_command_carries_the_declared_url() {
    let (_, commands) = generate(
        "out".to_string(),
        vec![remote_file("/main.css", "https://cdn.example.com/npm/main.min.css?v=5#top")],
    );
    match &commands[0] {
        Command::Fetch { index, url } => {
            assert_eq!(*index, 0);
            assert_eq!(url.as_str(), "https://cdn.example.com/npm/main.min.css?v=5#top");
            assert_eq!(url.host_str(), Some("cdn.example.com"));
        }
        _ => panic!("remote bytes are fetched"),
    }
}
