use dek::compiler::interner::Interner;
use dek::compiler::source::{
    EntryContext, FileLoader, Source, SourceContext, SourceError, SourceLoader, SourceMap,
};
use std::cell::Cell;
use std::rc::Rc;

/// A loader over texts held in memory, which counts its loads.
struct Memory {
    files: Vec<(String, String)>,
    loads: Rc<Cell<usize>>,
}

impl Memory {
    fn new(files: &[(&str, &str)]) -> (Memory, Rc<Cell<usize>>) {
        let loads = Rc::new(Cell::new(0));
        let files = files
            .iter()
            .map(|(name, text)| (name.to_string(), text.to_string()))
            .collect();
        (
            Memory {
                files,
                loads: loads.clone(),
            },
            loads,
        )
    }
}

impl SourceLoader for Memory {
    type Error = String;

    fn resolve(&mut self, _cx: &SourceContext, name: &str) -> Result<String, String> {
        if name.is_empty() {
            Err("empty name".to_string())
        } else {
            Ok(format!("mem:{}", name))
        }
    }

    fn load(&mut self, _cx: &SourceContext, key: &str) -> Result<Source, String> {
        self.loads.set(self.loads.get() + 1);
        for (name, text) in &self.files {
            if format!("mem:{}", name) == key {
                return Ok(Source::new(text.clone()));
            }
        }
        Err(format!("no source at {}", key))
    }
}

fn entry() -> SourceContext {
    let mut cx = SourceContext::new();
    cx.extensions_mut().insert(EntryContext);
    cx
}

#[test]
fn a_new_map_is_empty() {
    let (loader, _) = Memory::new(&[]);
    let map = SourceMap::new(loader);
    assert_eq!(map.len(), 0);
    assert!(map.get(0).is_none());
    assert!(map.position("mem:a").is_none());
}

#[test]
fn the_first_source_starts_at_zero() {
    let (loader, _) = Memory::new(&[("a", "let x")]);
    let mut map = SourceMap::new(loader);
    let source = map.load(&entry(), "a").unwrap();
    assert_eq!(source.start_pos().offset(), 0);
    assert_eq!(source.contents(), "let x");
    assert_eq!(source.byte_len(), 5);
    assert_eq!(source.end_pos().offset(), 5);
    assert_eq!(map.len(), 1);
}

#[test]
fn loading_twice_gives_the_same_source_and_loads_once() {
    let (loader, loads) = Memory::new(&[("a", "one"), ("b", "two!")]);
    let mut map = SourceMap::new(loader);
    map.load(&entry(), "a").unwrap();
    let first = map.load(&entry(), "b").unwrap();
    let (start, text) = (first.start_pos(), first.contents().to_string());
    assert_eq!(loads.get(), 2);
    let again = map.load(&SourceContext::new(), "b").unwrap();
    assert_eq!(again.start_pos(), start);
    assert_eq!(again.start_pos().offset(), 3);
    assert_eq!(again.contents(), text);
    assert_eq!(loads.get(), 2);
    assert_eq!(map.len(), 2);
    let a_again = map.load(&entry(), "a").unwrap();
    assert_eq!(a_again.start_pos().offset(), 0);
    assert_eq!(loads.get(), 2);
    assert_eq!(map.len(), 2);
}

#[test]
fn each_source_starts_where_the_one_before_ends() {
    let (loader, _) = Memory::new(&[("a", "12345"), ("b", ""), ("c", "h\u{e9}llo"), ("d", "z")]);
    let mut map = SourceMap::new(loader);
    for name in ["a", "b", "c", "d"] {
        map.load(&entry(), name).unwrap();
    }
    let starts: Vec<u32> = (0..4)
        .map(|i| map.get(i).unwrap().start_pos().offset())
        .collect();
    assert_eq!(starts, vec![0, 5, 5, 11]);
    for i in 0..3 {
        let here = map.get(i).unwrap();
        let next = map.get(i + 1).unwrap();
        assert_eq!(
            next.start_pos().offset(),
            here.start_pos().offset() + here.byte_len() as u32
        );
    }
    assert_eq!(map.get(3).unwrap().end_pos().offset(), 12);
}

#[test]
fn sources_keep_their_load_order() {
    let (loader, _) = Memory::new(&[("a", "1"), ("b", "22"), ("c", "333")]);
    let mut map = SourceMap::new(loader);
    map.load(&entry(), "c").unwrap();
    map.load(&entry(), "a").unwrap();
    map.load(&entry(), "b").unwrap();
    map.load(&entry(), "a").unwrap();
    assert_eq!(map.position("mem:c"), Some(0));
    assert_eq!(map.position("mem:a"), Some(1));
    assert_eq!(map.position("mem:b"), Some(2));
    assert_eq!(map.position("mem:d"), None);
    assert_eq!(map.get(0).unwrap().contents(), "333");
    assert_eq!(map.get(1).unwrap().contents(), "1");
    assert_eq!(map.get(2).unwrap().contents(), "22");
    assert!(map.get(3).is_none());
}

#[test]
fn a_failed_resolve_leaves_the_map_as_it_was() {
    let (loader, loads) = Memory::new(&[("a", "one")]);
    let mut map = SourceMap::new(loader);
    map.load(&entry(), "a").unwrap();
    match map.load(&entry(), "") {
        Err(SourceError::Loader(message)) => assert_eq!(message, "empty name"),
        other => panic!("expected the loader's error, got {:?}", other.map(|s| s.contents())),
    }
    assert_eq!(map.len(), 1);
    assert_eq!(loads.get(), 1);
}

#[test]
fn a_failed_load_leaves_the_map_as_it_was() {
    let (loader, loads) = Memory::new(&[("a", "one")]);
    let mut map = SourceMap::new(loader);
    map.load(&entry(), "a").unwrap();
    match map.load(&entry(), "missing") {
        Err(SourceError::Loader(message)) => assert_eq!(message, "no source at mem:missing"),
        other => panic!("expected the loader's error, got {:?}", other.map(|s| s.contents())),
    }
    assert_eq!(map.len(), 1);
    assert_eq!(loads.get(), 2);
    assert_eq!(map.load(&entry(), "a").unwrap().start_pos().offset(), 0);
}

#[test]
fn insert_places_a_new_source_and_finds_a_cached_one() {
    let (loader, _) = Memory::new(&[]);
    let mut map = SourceMap::new(loader);
    let first = map
        .insert("k".to_string(), Source::new("abc".to_string()))
        .unwrap();
    assert_eq!(first.start_pos().offset(), 0);
    let second = map
        .insert("l".to_string(), Source::new("de".to_string()))
        .unwrap();
    assert_eq!(second.start_pos().offset(), 3);
    let cached = map
        .insert("k".to_string(), Source::new("other".to_string()))
        .unwrap();
    assert_eq!(cached.contents(), "abc");
    assert_eq!(cached.start_pos().offset(), 0);
    assert_eq!(map.len(), 2);
}

#[test]
fn a_source_keeps_the_hints_it_was_given() {
    let mut source = Source::new("x".to_string());
    assert!(!source.context().has_entry());
    source.context_mut().extensions_mut().insert(EntryContext);
    assert!(source.context().has_entry());
    assert_eq!(source.contents(), "x");
}

/// A loader without state.
struct Nothing;

impl SourceLoader for Nothing {
    type Error = ();

    fn resolve(&mut self, _cx: &SourceContext, _name: &str) -> Result<String, ()> {
        Err(())
    }

    fn load(&mut self, _cx: &SourceContext, _key: &str) -> Result<Source, ()> {
        Err(())
    }
}

fn shared_between_threads<T: Send + Sync>() {}

#[test]
fn finished_values_can_be_shared_between_threads() {
    shared_between_threads::<SourceMap<Nothing>>();
    shared_between_threads::<Source>();
    shared_between_threads::<SourceContext>();
    shared_between_threads::<Interner>();
    shared_between_threads::<FileLoader>();
}
