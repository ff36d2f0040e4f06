use vectorizer::documents::Document;
use vectorizer::documents::DocumentFragment;
use vectorizer::documents::Documents;
use vectorizer::documents::MetaDataStore;
use vectorizer::documents::MetaMap;
use vectorizer::ids::format_index;
use vectorizer::ids::make_fragment_id;
use vectorizer::indexer::build_index;
use vectorizer::indexer::obtain_data;
use vectorizer::settings::SettingValue;
use vectorizer::settings::Settings;

#[test]
fn format_index_decimal() {
    assert_eq!(format_index(0), "0");
    assert_eq!(format_index(7), "7");
    assert_eq!(format_index(42), "42");
    assert_eq!(format_index(1234567890), "1234567890");
}

#[test]
fn fragment_id_shape() {
    assert_eq!(make_fragment_id("doc", 7), "doc_7");
    assert_eq!(make_fragment_id("", 0), "_0");
}

#[test]
fn meta_map_insert_and_get() {
    let mut m = MetaMap::new();
    m.insert("k".to_string(), "v1".to_string());
    assert_eq!(m.get("k").map(String::as_str), Some("v1"));
    m.insert("k".to_string(), "v2".to_string());
    assert_eq!(m.get("k").map(String::as_str), Some("v2"));
    assert_eq!(m.get("missing"), None);
}

#[test]
fn meta_data_store_starts_empty() {
    let store = MetaDataStore::new();
    assert_eq!(store.metadata.get("anything"), None);
}

#[test]
fn add_fragment_derives_id_and_snapshots_metadata() {
    let mut metadata = MetaMap::new();
    metadata.insert("origin".to_string(), "test".to_string());
    let mut doc = Document {
        id: "d1".to_string(),
        name: "file.txt".to_string(),
        text: "hello world".to_string(),
        metadata,
        fragments: Vec::new(),
    };
    doc.add_fragment("hello".to_string(), 0);
    doc.add_fragment("world".to_string(), 1);
    assert_eq!(doc.fragments[0].id, "d1_0");
    assert_eq!(doc.fragments[1].id, "d1_1");
    assert_eq!(doc.fragments[0].document_id, "d1");
    assert_eq!(doc.fragments[0].text, "hello");
    assert_eq!(
        doc.fragments[0].metadata.get("origin").map(String::as_str),
        Some("test")
    );
    // Copy-on-create: a later metadata write on the document is not seen by
    // fragments created earlier.
    doc.metadata.insert("later".to_string(), "value".to_string());
    assert_eq!(doc.fragments[0].metadata.get("later"), None);
}

#[test]
fn fragment_to_embedded_carries_fields() {
    let mut frag = DocumentFragment::new();
    frag.id = "d_0".to_string();
    frag.document_id = "d".to_string();
    frag.name = "n".to_string();
    frag.text = "t".to_string();
    let e = frag.to_embedded(vec![1u32, 2, 3]);
    assert_eq!(e.id, "d_0");
    assert_eq!(e.document_id, "d");
    assert_eq!(e.name, "n");
    assert_eq!(e.text, "t");
    assert_eq!(e.embeddings, vec![1u32, 2, 3]);
}

#[test]
fn documents_to_embedded_carries_collection() {
    let mut docs = Documents::new();
    docs.collection = "coll".to_string();
    let embedded = docs.to_embedded(Vec::new());
    assert_eq!(embedded.collection, "coll");
    assert_eq!(embedded.documents.len(), 0);
}

#[test]
fn obtain_data_injects_metadata_and_fragments() {
    let mut settings = Settings::new();
    settings.set("database.max_tokens", SettingValue::Int(2));
    let base = MetaMap::new();
    let doc = obtain_data("dir/report.md", "one two three".to_string(), &base, &settings);
    assert_eq!(doc.name, "report.md");
    assert_eq!(doc.metadata.get("path").map(String::as_str), Some("dir/report.md"));
    assert_eq!(doc.metadata.get("file_name").map(String::as_str), Some("report.md"));
    assert_eq!(doc.metadata.get("extension").map(String::as_str), Some("md"));
    assert_eq!(doc.metadata.get("file_stem").map(String::as_str), Some("report"));
    assert_eq!(doc.fragments.len(), 2);
    assert_eq!(doc.fragments[0].text, "one two");
    assert_eq!(doc.fragments[1].text, "three");
    // The document identifier is the version-5 UUID of the file name under
    // the OID namespace.
    let expected = uuid::Uuid::new_v5(&uuid::Uuid::NAMESPACE_OID, "report.md".as_bytes())
        .to_string();
    assert_eq!(doc.id, expected);
    assert_eq!(doc.fragments[0].id, format!("{}_0", expected));
    assert_eq!(doc.fragments[1].id, format!("{}_1", expected));
}

#[test]
fn obtain_data_handles_names_without_extension() {
    let settings = Settings::new();
    let base = MetaMap::new();
    let doc = obtain_data("Makefile", "all: build".to_string(), &base, &settings);
    assert_eq!(doc.metadata.get("extension").map(String::as_str), Some(""));
    assert_eq!(doc.metadata.get("file_stem").map(String::as_str), Some("Makefile"));
}

#[test]
fn fragment_ids_unique_and_stable_across_runs() {
    let mut settings = Settings::new();
    settings.set("database.max_tokens", SettingValue::Int(1));
    settings.set(
        "database.collection",
        SettingValue::Str("chunks".to_string()),
    );
    let base = MetaMap::new();
    let files = vec![("a.txt".to_string(), "alpha beta gamma".to_string())];
    let first = build_index(&files, &settings, &base);
    let second = build_index(&files, &settings, &base);
    assert_eq!(first.collection, "chunks");
    assert_eq!(first.documents.len(), 1);
    let frags_a: Vec<String> = first.documents[0].fragments.iter().map(|f| f.id.clone()).collect();
    let frags_b: Vec<String> = second.documents[0].fragments.iter().map(|f| f.id.clone()).collect();
    // Stable across repeated runs on unchanged input.
    assert_eq!(frags_a, frags_b);
    // Unique within the document.
    for i in 0..frags_a.len() {
        for j in 0..frags_a.len() {
            if i != j {
                assert_ne!(frags_a[i], frags_a[j]);
            }
        }
    }
}
