use chess::engine_names::engine_name_ok;

#[test]
fn engine_names_allow_letters_digits_and_few_signs() {
    assert!(engine_name_ok("Stockfish 15.1"));
    assert!(engine_name_ok("my_engine-v2"));
    assert!(engine_name_ok(""));
    assert!(engine_name_ok("Schachmaschine Ü1"));
    assert!(!engine_name_ok("bad/name"));
    assert!(!engine_name_ok("../etc"));
    assert!(!engine_name_ok("tab\there"));
    assert!(!engine_name_ok("semi;colon"));
}
