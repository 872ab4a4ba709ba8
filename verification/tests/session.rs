use rasa::document::Document;
use rasa::error::RasaError;
use rasa::ids::fresh_id;
use rasa::layer::Layer;
use rasa::session::SessionState;

#[test]
fn create_and_list() {
    let mut state = SessionState::new();
    let id = state.create_document("Test", 100, 100);
    let docs = state.list_documents();
    assert_eq!(docs.len(), 1);
    assert_eq!(docs[0].0, id);
    assert_eq!(docs[0].1, "Test");
}

#[test]
fn with_doc_reads() {
    let mut state = SessionState::new();
    let id = state.create_document("Canvas", 200, 150);
    let name = state.with_doc(id, |d| d.name.clone()).unwrap();
    assert_eq!(name, "Canvas");
}

#[test]
fn with_doc_mut_modifies() {
    let mut state = SessionState::new();
    let id = state.create_document("Canvas", 100, 100);
    state
        .with_doc_mut(id, |d| {
            d.add_layer(Layer::new_raster("New", 100, 100));
        })
        .unwrap();
    let count = state.with_doc(id, |d| d.layers.len()).unwrap();
    assert_eq!(count, 2);
}

#[test]
fn close_document() {
    let mut state = SessionState::new();
    let id = state.create_document("Temp", 10, 10);
    assert!(state.close_document(id));
    assert!(!state.close_document(id));
}

#[test]
fn missing_doc_errors() {
    let state = SessionState::new();
    let result = state.with_doc(fresh_id(), |_| {});
    assert!(result.is_err());
}

#[test]
fn missing_doc_error_names_the_identifier() {
    let mut state = SessionState::new();
    let id: u128 = 0x67e5_5044_10b1_426f_9247_bb68_0e5f_e0c8;
    match state.with_doc_mut(id, |_| 1) {
        Err(RasaError::Other(m)) => assert_eq!(m, "document not found: 67e55044-10b1-426f-9247-bb680e5fe0c8"),
        other => panic!("unexpected {:?}", other.map(|_| ())),
    }
}

#[test]
fn insert_replaces_document_with_same_id() {
    let mut state = SessionState::new();
    let doc = Document::new("First", 10, 10);
    let id = state.insert(doc);
    let mut again = Document::new("Second", 20, 20);
    again.id = id;
    assert_eq!(state.insert(again), id);
    let docs = state.list_documents();
    assert_eq!(docs, vec![(id, "Second".to_string(), 20, 20)]);
}

#[test]
fn list_documents_once_each() {
    let mut state = SessionState::new();
    let a = state.create_document("A", 3, 4);
    let b = state.create_document("B", 5, 6);
    let mut docs = state.list_documents();
    docs.sort();
    let mut expected = vec![(a, "A".to_string(), 3, 4), (b, "B".to_string(), 5, 6)];
    expected.sort();
    assert_eq!(docs, expected);
    assert!(state.close_document(a));
    assert_eq!(state.list_documents(), vec![(b, "B".to_string(), 5, 6)]);
}
