use promptlab::index::{get_index_entry, list_prompts, remove_index_entry, update_index_entry, PromptIndex, PromptIndexEntry};
use promptlab::store::{PromptDir, PromptError, PromptMetaInput, PromptStore, VersionRecord};
use promptlab::table::Table;

const TEMPLATE: &str = "# System\n\n# User\n\n# Rules\n";

fn input(description: &str) -> PromptMetaInput {
    PromptMetaInput { description: description.to_string(), model: "gpt-4".to_string(), temperature_bits: 0.7f32.to_bits() }
}

fn entry(latest: &str, updated_at: &str) -> PromptIndexEntry {
    PromptIndexEntry {
        latest: latest.to_string(),
        created_at: "2024-01-01T00:00:00+00:00".to_string(),
        updated_at: updated_at.to_string(),
        tags: Table::new(),
    }
}

#[test]
fn created_document_reads_as_template() {
    let mut store = PromptStore::new();
    assert_eq!(store.create_prompt_at("greeting", input("hello"), "t0".to_string()), Ok(()));
    let data = store.get_prompt("greeting", None).ok().unwrap();
    assert_eq!(data.content, TEMPLATE);
    assert_eq!(data.version, "0.1.0");
    assert_eq!(data.meta.name, "greeting");
    assert_eq!(data.meta.description, "hello");
    assert_eq!(f32::from_bits(data.meta.temperature_bits), 0.7f32);
    assert_eq!(data.meta.created_at, "t0");
    let e = store.index.get("greeting").unwrap();
    assert_eq!(e.latest, "0.1.0");
    assert_eq!(e.created_at, "t0");
    assert_eq!(e.updated_at, "t0");
}

#[test]
fn second_create_is_rejected() {
    let mut store = PromptStore::new();
    assert_eq!(store.create_prompt_at("a", input("first"), "t0".to_string()), Ok(()));
    assert_eq!(store.create_prompt_at("a", input("second"), "t1".to_string()), Err(PromptError::AlreadyExists));
    let data = store.get_prompt("a", None).ok().unwrap();
    assert_eq!(data.meta.description, "first");
    assert_eq!(data.meta.created_at, "t0");
    assert_eq!(store.index.len(), 1);
}

#[test]
fn invalid_names_are_rejected() {
    let mut store = PromptStore::new();
    assert_eq!(store.create_prompt_at("", input("x"), "t".to_string()), Err(PromptError::InvalidName));
    assert_eq!(store.create_prompt_at("a/b", input("x"), "t".to_string()), Err(PromptError::InvalidName));
    assert_eq!(store.create_prompt_at("a\\b", input("x"), "t".to_string()), Err(PromptError::InvalidName));
    assert_eq!(store.index.len(), 0);
    assert_eq!(store.dirs.len(), 0);
}

#[test]
fn saving_same_content_is_no_change() {
    let mut store = PromptStore::new();
    store.create_prompt_at("p", input("d"), "t0".to_string()).unwrap();
    assert_eq!(store.save_prompt_at("p", TEMPLATE.to_string(), input("other"), "t1".to_string()), Err(PromptError::NoChange));
    let data = store.get_prompt("p", None).ok().unwrap();
    assert_eq!(data.version, "0.1.0");
    assert_eq!(data.meta.description, "d");
    assert_eq!(store.index.get("p").unwrap().updated_at, "t0");
}

#[test]
fn saves_raise_patch_and_keep_history() {
    let mut store = PromptStore::new();
    store.create_prompt_at("p", input("d"), "t0".to_string()).unwrap();
    assert_eq!(store.save_prompt_at("p", "one".to_string(), input("d1"), "t1".to_string()), Ok("0.1.1".to_string()));
    assert_eq!(store.save_prompt_at("p", "two".to_string(), input("d2"), "t2".to_string()), Ok("0.1.2".to_string()));
    let latest = store.get_prompt("p", None).ok().unwrap();
    assert_eq!(latest.version, "0.1.2");
    assert_eq!(latest.content, "two");
    assert_eq!(latest.meta.description, "d2");
    assert_eq!(latest.meta.created_at, "t0");
    assert_eq!(store.get_prompt("p", Some("0.1.0")).ok().unwrap().content, TEMPLATE);
    assert_eq!(store.get_prompt("p", Some("0.1.1")).ok().unwrap().content, "one");
    let e = store.index.get("p").unwrap();
    assert_eq!(e.created_at, "t0");
    assert_eq!(e.updated_at, "t2");
    assert_eq!(store.list_prompt_versions("p"), vec!["0.1.2", "0.1.1", "0.1.0"]);
}

#[test]
fn save_of_unknown_document_is_not_found() {
    let mut store = PromptStore::new();
    assert_eq!(store.save_prompt_at("ghost", "x".to_string(), input("d"), "t".to_string()), Err(PromptError::NotFound));
}

#[test]
fn save_with_unreadable_latest_is_io_failure() {
    let mut store = PromptStore::new();
    store.index.insert("p".to_string(), entry("0.1.0", "t"));
    assert_eq!(store.save_prompt_at("p", "x".to_string(), input("d"), "t".to_string()), Err(PromptError::IoFailure));
}

#[test]
fn save_past_largest_patch_is_exhausted() {
    let mut store = PromptStore::new();
    let top = "0.1.18446744073709551615";
    store.index.insert("p".to_string(), entry(top, "t"));
    let mut versions = Table::new();
    versions.insert(top.to_string(), VersionRecord { content: "old".to_string(), written_at: "t".to_string() });
    let meta = promptlab::store::PromptMeta {
        name: "p".to_string(),
        description: String::new(),
        model: String::new(),
        temperature_bits: 0,
        created_at: "t".to_string(),
    };
    store.dirs.insert("p".to_string(), PromptDir { meta: Some(meta), versions });
    assert_eq!(store.save_prompt_at("p", "new".to_string(), input("d"), "t".to_string()), Err(PromptError::VersionExhausted));
}

#[test]
fn deleted_document_is_gone() {
    let mut store = PromptStore::new();
    store.create_prompt_at("p", input("d"), "t0".to_string()).unwrap();
    store.create_prompt_at("q", input("d"), "t1".to_string()).unwrap();
    assert_eq!(store.delete_prompt("p"), Ok(()));
    assert_eq!(store.get_prompt("p", None).err(), Some(PromptError::NotFound));
    assert_eq!(store.get_prompt("p", Some("0.1.0")).err(), Some(PromptError::NotFound));
    assert_eq!(store.list_versions("p").err(), Some(PromptError::NotFound));
    let names: Vec<String> = list_prompts(&store.index).into_iter().map(|s| s.name).collect();
    assert_eq!(names, vec!["q"]);
    assert_eq!(store.delete_prompt("p"), Err(PromptError::NotFound));
}

#[test]
fn unknown_version_is_not_found() {
    let mut store = PromptStore::new();
    store.create_prompt_at("p", input("d"), "t0".to_string()).unwrap();
    assert_eq!(store.get_prompt("p", Some("9.9.9")).err(), Some(PromptError::NotFound));
}

#[test]
fn list_versions_sorts_by_version() {
    let mut store = PromptStore::new();
    let mut versions = Table::new();
    for (v, at) in [("0.1.0", "a"), ("0.2.0", "b"), ("0.1.9", "c")] {
        versions.insert(v.to_string(), VersionRecord { content: v.to_string(), written_at: at.to_string() });
    }
    store.dirs.insert("p".to_string(), PromptDir { meta: None, versions });
    let listed = store.list_versions("p").ok().unwrap();
    let names: Vec<&str> = listed.iter().map(|i| i.version.as_str()).collect();
    assert_eq!(names, vec!["0.2.0", "0.1.9", "0.1.0"]);
    assert_eq!(listed[0].created_at, "b");
    assert!(store.list_prompt_versions("absent").is_empty());
}

#[test]
fn diff_between_versions() {
    let mut store = PromptStore::new();
    store.create_prompt_at("p", input("d"), "t0".to_string()).unwrap();
    store.save_prompt_at("p", "# System\n\n# User\nhi\n# Rules\n".to_string(), input("d"), "t1".to_string()).unwrap();
    let d = store.diff_prompt("p", "0.1.0", "0.1.1").ok().unwrap();
    assert_eq!(d.from_version, "0.1.0");
    assert_eq!(d.to_version, "0.1.1");
    assert_eq!(d.chunks.len(), 4);
    assert_eq!(d.chunks[1].lines, vec!["\n".to_string()]);
    assert_eq!(d.chunks[2].lines, vec!["hi\n".to_string()]);
    assert_eq!(store.diff_prompt("p", "0.1.0", "7.0.0").err(), Some(PromptError::NotFound));
}

#[test]
fn documents_listed_by_latest_update() {
    let mut index: PromptIndex = Table::new();
    update_index_entry(&mut index, "old", entry("0.1.0", "2024-01-01T00:00:00+00:00"));
    update_index_entry(&mut index, "new", entry("0.1.3", "2024-03-01T00:00:00+00:00"));
    update_index_entry(&mut index, "mid", entry("0.2.0", "2024-02-01T00:00:00+00:00"));
    let listed = list_prompts(&index);
    let names: Vec<&str> = listed.iter().map(|s| s.name.as_str()).collect();
    assert_eq!(names, vec!["new", "mid", "old"]);
    assert_eq!(listed[0].latest, "0.1.3");
}

#[test]
fn index_entries_put_get_remove() {
    let mut index: PromptIndex = Table::new();
    assert!(get_index_entry(&index, "a").is_none());
    update_index_entry(&mut index, "a", entry("0.1.0", "t0"));
    update_index_entry(&mut index, "a", entry("0.1.1", "t1"));
    assert_eq!(index.len(), 1);
    assert_eq!(get_index_entry(&index, "a").unwrap().latest, "0.1.1");
    remove_index_entry(&mut index, "a");
    remove_index_entry(&mut index, "a");
    assert!(get_index_entry(&index, "a").is_none());
    assert_eq!(index.len(), 0);
}

#[test]
fn create_and_save_stamp_the_current_time() {
    let mut store = PromptStore::new();
    assert_eq!(store.create_prompt("clocked", input("d")), Ok(()));
    let created = store.index.get("clocked").unwrap().created_at.clone();
    assert!(created.starts_with("20"));
    assert_eq!(store.save_prompt("clocked", "body".to_string(), input("d")), Ok("0.1.1".to_string()));
    let e = store.index.get("clocked").unwrap();
    assert_eq!(e.created_at, created);
    assert!(e.updated_at >= created);
}
