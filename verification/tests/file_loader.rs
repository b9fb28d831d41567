use dek::compiler::source::{
    EntryContext, FileContext, FileLoader, FileLoaderError, SourceContext,
};
use std::io;

fn entry() -> SourceContext {
    let mut cx = SourceContext::new();
    cx.extensions_mut().insert(EntryContext);
    cx
}

fn inside(path: &str) -> SourceContext {
    let mut cx = SourceContext::new();
    cx.extensions_mut().insert(FileContext::new(path.to_string()));
    cx
}

#[test]
fn resolve_without_a_hint_is_an_invalid_context() {
    let mut loader = FileLoader::new("/root");
    let cx = SourceContext::new();
    assert!(matches!(
        loader.resolve(&cx, "b.dek"),
        Err(FileLoaderError::InvalidContext)
    ));
}

#[test]
fn resolve_under_the_entry_hint_joins_the_base_path() {
    let mut loader = FileLoader::new("/root");
    assert_eq!(loader.resolve(&entry(), "b.dek").unwrap(), "/root/b.dek");
    assert_eq!(
        loader.resolve(&entry(), "lib/c.dek").unwrap(),
        "/root/lib/c.dek"
    );
}

#[test]
fn resolve_under_a_file_hint_joins_the_directory_of_the_file() {
    let mut loader = FileLoader::new("/root");
    let cx = inside("/root/src/a.dek");
    assert_eq!(loader.resolve(&cx, "b.dek").unwrap(), "/root/src/b.dek");
    let top = inside("main.dek");
    assert_eq!(loader.resolve(&top, "b.dek").unwrap(), "b.dek");
}

#[test]
fn resolve_prefers_the_entry_hint() {
    let mut loader = FileLoader::new("/root");
    let mut cx = inside("/elsewhere/a.dek");
    cx.extensions_mut().insert(EntryContext);
    assert_eq!(loader.resolve(&cx, "b.dek").unwrap(), "/root/b.dek");
}

#[test]
fn resolve_under_a_file_without_parent_joins_the_path_of_the_file() {
    let mut loader = FileLoader::new("/root");
    assert_eq!(loader.resolve(&inside("/"), "b.dek").unwrap(), "/b.dek");
    assert_eq!(loader.resolve(&inside(""), "b.dek").unwrap(), "b.dek");
}

#[test]
fn resolve_succeeds_under_every_hint() {
    let mut loader = FileLoader::new("/root");
    for path in ["", "/", "a.dek", "/a.dek", "x/y/a.dek", ".", ".."] {
        assert!(loader.resolve(&inside(path), "b.dek").is_ok());
    }
    assert!(loader.resolve(&entry(), "b.dek").is_ok());
    assert!(loader.resolve(&SourceContext::new(), "b.dek").is_err());
}

#[test]
fn resolve_does_not_make_paths_canonical() {
    let mut loader = FileLoader::new("/root");
    let plain = loader.resolve(&entry(), "b.dek").unwrap();
    let dotted = loader.resolve(&entry(), "./b.dek").unwrap();
    assert_eq!(dotted, "/root/./b.dek");
    assert_ne!(plain, dotted);
}

#[test]
fn resolve_is_the_same_each_time() {
    let mut loader = FileLoader::new("base");
    let first = loader.resolve(&entry(), "b.dek").unwrap();
    let second = loader.resolve(&entry(), "b.dek").unwrap();
    assert_eq!(first, "base/b.dek");
    assert_eq!(first, second);
}

#[test]
fn load_wraps_what_was_read_in_an_unplaced_source() {
    let mut loader = FileLoader::new("/root");
    let source = loader
        .load("/root/b.dek", Ok("let x = 1".to_string()))
        .unwrap();
    assert_eq!(source.contents(), "let x = 1");
    assert_eq!(source.start_pos().offset(), u32::MAX);
    assert!(!source.context().has_entry());
    assert!(source.context().file_path().is_none());
}

#[test]
fn load_reports_a_failed_read_with_its_path() {
    let mut loader = FileLoader::new("/root");
    let failed = loader.load(
        "/root/missing.dek",
        Err(io::Error::new(io::ErrorKind::NotFound, "no such file")),
    );
    match failed {
        Err(FileLoaderError::IO { err, path }) => {
            assert_eq!(err.kind(), io::ErrorKind::NotFound);
            assert_eq!(path, "/root/missing.dek");
        }
        other => panic!("expected an I/O error, got {:?}", other),
    }
}

#[test]
fn context_reads_back_what_was_inserted() {
    let empty = SourceContext::default();
    assert!(!empty.has_entry());
    assert!(empty.file_path().is_none());
    assert!(entry().has_entry());
    assert!(entry().file_path().is_none());
    let cx = inside("/root/a.dek");
    assert!(!cx.has_entry());
    assert_eq!(cx.file_path(), Some("/root/a.dek"));
    assert!(cx.extensions().get::<FileContext>().is_some());
}

#[test]
fn context_holds_one_hint_of_each_type() {
    let mut cx = inside("/root/a.dek");
    let before = cx
        .extensions_mut()
        .insert(FileContext::new("/root/b.dek".to_string()));
    assert_eq!(before.unwrap().path(), "/root/a.dek");
    assert_eq!(cx.file_path(), Some("/root/b.dek"));
}

#[test]
fn context_insert_entry_sets_the_entry_hint_only() {
    let mut cx = SourceContext::new();
    assert!(cx.insert_entry(EntryContext).is_none());
    assert!(cx.has_entry());
    assert!(cx.file_path().is_none());
    assert!(cx.insert_entry(EntryContext).is_some());
    assert!(cx.has_entry());
    let mut loader = FileLoader::new("/root");
    assert_eq!(loader.resolve(&cx, "b.dek").unwrap(), "/root/b.dek");
}

#[test]
fn context_insert_file_replaces_the_file_hint_only() {
    let mut cx = SourceContext::new();
    assert!(cx
        .insert_file(FileContext::new("/a/x.dek".to_string()))
        .is_none());
    assert!(!cx.has_entry());
    assert_eq!(cx.file_path(), Some("/a/x.dek"));
    let before = cx.insert_file(FileContext::new("/b/y.dek".to_string()));
    assert_eq!(before.unwrap().path(), "/a/x.dek");
    assert_eq!(cx.file_path(), Some("/b/y.dek"));
    assert!(!cx.has_entry());
    cx.insert_entry(EntryContext);
    assert_eq!(cx.file_path(), Some("/b/y.dek"));
}
