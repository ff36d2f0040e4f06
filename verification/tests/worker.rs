use vectorizer::documents::MetaMap;
use vectorizer::errors::Error;
use vectorizer::indexer::build_index;
use vectorizer::settings::SettingValue;
use vectorizer::settings::Settings;
use vectorizer::worker::encode_documents;
use vectorizer::worker::get_model_type;
use vectorizer::worker::Model;
use vectorizer::worker::ModelKind;

fn indexed_example() -> vectorizer::documents::Documents {
    let mut settings = Settings::new();
    settings.set("database.max_tokens", SettingValue::Int(2));
    settings.set(
        "database.collection",
        SettingValue::Str("test_collection".to_string()),
    );
    let base = MetaMap::new();
    let files = vec![("a.txt".to_string(), "one two three four five".to_string())];
    build_index(&files, &settings, &base)
}

#[test]
fn model_kind_selection_defaults_to_l12() {
    assert!(matches!(get_model_type("L6"), ModelKind::L6));
    assert!(matches!(get_model_type("L12"), ModelKind::L12));
    assert!(matches!(get_model_type("unknown"), ModelKind::L12));
}

#[test]
fn worker_construction_fails_on_unresolvable_model() {
    match Model::spawn(Err("model path does not resolve".to_string())) {
        Err(Error::ModelLoad(_)) => {}
        _ => panic!("an unresolvable model source must fail construction"),
    }
}

#[test]
fn worker_construction_fails_on_empty_dimension() {
    assert!(Model::spawn(Ok(0)).is_err());
}

#[test]
fn worker_construction_succeeds_on_resolved_model() {
    assert!(Model::spawn(Ok(384)).is_ok());
}

#[test]
fn replies_leave_in_submission_order() {
    let mut model = Model::spawn(Ok(3)).expect("construction");
    let a = model.submit(indexed_example());
    let b = model.submit(indexed_example());
    assert!(a < b);
    let outputs_a: Vec<Option<Vec<u32>>> =
        vec![Some(vec![1, 2, 3]), Some(vec![4, 5, 6]), Some(vec![7, 8, 9])];
    let outputs_b: Vec<Option<Vec<u32>>> =
        vec![Some(vec![1, 1, 1]), Some(vec![2, 2, 2]), Some(vec![3, 3, 3])];
    // The head of the queue is always the earliest submission: B's reply
    // cannot be produced before A's.
    let (first_id, first_reply) = model.process_next(outputs_a);
    assert_eq!(first_id, a);
    assert!(first_reply.is_ok());
    let (second_id, second_reply) = model.process_next(outputs_b);
    assert_eq!(second_id, b);
    assert!(second_reply.is_ok());
}

#[test]
fn example_run_embeds_three_fragments_in_order() {
    let documents = indexed_example();
    assert_eq!(documents.documents.len(), 1);
    let doc_id = documents.documents[0].id.clone();
    let texts: Vec<String> =
        documents.documents[0].fragments.iter().map(|f| f.text.clone()).collect();
    assert_eq!(texts, vec!["one two", "three four", "five"]);

    // One embedding call per fragment, in order.
    let outputs: Vec<Option<Vec<u32>>> =
        vec![Some(vec![10, 11]), Some(vec![20, 21]), Some(vec![30, 31])];
    let embedded = encode_documents(&documents, outputs, 2).expect("assembly");
    assert_eq!(embedded.collection, "test_collection");
    assert_eq!(embedded.documents.len(), 3);
    for (i, e) in embedded.documents.iter().enumerate() {
        assert_eq!(e.document_id, doc_id);
        assert_eq!(e.id, format!("{}_{}", doc_id, i));
    }
    assert_eq!(embedded.documents[0].text, "one two");
    assert_eq!(embedded.documents[1].text, "three four");
    assert_eq!(embedded.documents[2].text, "five");
    assert_eq!(embedded.documents[0].embeddings, vec![10, 11]);
    assert_eq!(embedded.documents[1].embeddings, vec![20, 21]);
    assert_eq!(embedded.documents[2].embeddings, vec![30, 31]);
}

#[test]
fn a_failed_fragment_inference_is_fatal_to_the_request() {
    let documents = indexed_example();
    let outputs: Vec<Option<Vec<u32>>> = vec![Some(vec![1, 2]), None, Some(vec![3, 4])];
    match encode_documents(&documents, outputs, 2) {
        Err(Error::Embedding(_)) => {}
        _ => panic!("a missing vector must fail the whole request"),
    }
}

#[test]
fn a_mis_sized_vector_is_fatal_to_the_request() {
    let documents = indexed_example();
    let outputs: Vec<Option<Vec<u32>>> =
        vec![Some(vec![1, 2]), Some(vec![3]), Some(vec![4, 5])];
    assert!(encode_documents(&documents, outputs, 2).is_err());
}

#[test]
fn an_output_count_mismatch_is_fatal_to_the_request() {
    let documents = indexed_example();
    let too_few: Vec<Option<Vec<u32>>> = vec![Some(vec![1, 2])];
    assert!(encode_documents(&documents, too_few, 2).is_err());
    let too_many: Vec<Option<Vec<u32>>> =
        vec![Some(vec![1, 2]), Some(vec![3, 4]), Some(vec![5, 6]), Some(vec![7, 8])];
    assert!(encode_documents(&documents, too_many, 2).is_err());
}
