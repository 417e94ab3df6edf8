use memmap::MmapMut;
use shared_list::state::{align_len, is_document_update, State, StoreError, JSON_INIT, PAGE_SIZE};

fn fresh_state() -> State {
    let mmap = MmapMut::map_anon(align_len(JSON_INIT.len())).unwrap();
    State::new(mmap, true, None).unwrap()
}

fn text_of_len(n: usize) -> String {
    let mut s = String::from("[");
    while s.len() < n {
        s.push('x');
    }
    s
}

fn set(state: &mut State, text: &str) {
    match state.set_json(text) {
        Ok(()) => {}
        Err(StoreError::NeedsCapacity(n)) => {
            let mmap = MmapMut::map_anon(n).unwrap();
            state.set_json_remapped(mmap, text).unwrap();
        }
        Err(e) => panic!("{:?}", e),
    }
}

#[test]
fn align_len_values() {
    assert_eq!(align_len(0), 4096);
    assert_eq!(align_len(1), 4096);
    assert_eq!(align_len(4095), 4096);
    assert_eq!(align_len(4096), 4096);
    assert_eq!(align_len(4097), 8192);
    assert_eq!(align_len(10000), 12288);
    assert_eq!(align_len(usize::MAX - 4095), usize::MAX - 4095);
    assert_eq!(align_len(usize::MAX - 8190), usize::MAX - 4095);
    assert_eq!(align_len(align_len(5000)), align_len(5000));
}

#[test]
fn fresh_store_holds_initial_document() {
    let state = fresh_state();
    assert_eq!(state.get_json(), JSON_INIT);
    assert_eq!(
        JSON_INIT,
        r#"[{"html":"Apples","checked":false},{"html":"Bacon","checked":false},{"html":"Coke","checked":false}]"#
    );
}

#[test]
fn round_trip_across_page_sizes() {
    for n in [1usize, 4095, 4096, 4097] {
        let mut state = fresh_state();
        let x = text_of_len(n);
        set(&mut state, &x);
        let got = state.get_json();
        assert_eq!(got.len(), n);
        assert_eq!(got, x);
    }
}

#[test]
fn shrinking_does_not_expose_padding() {
    let mut state = fresh_state();
    set(&mut state, &text_of_len(5000));
    set(&mut state, "[1]");
    assert_eq!(state.get_json(), "[1]");
}

#[test]
fn oversized_update_needs_capacity() {
    let mut state = fresh_state();
    let big = text_of_len(PAGE_SIZE + 1);
    assert_eq!(state.set_json(&big), Err(StoreError::NeedsCapacity(8192)));
    assert_eq!(state.get_json(), JSON_INIT);
    let small = MmapMut::map_anon(PAGE_SIZE).unwrap();
    assert_eq!(state.set_json_remapped(small, &big), Err(StoreError::BadMapping));
    assert_eq!(state.get_json(), JSON_INIT);
}

#[test]
fn restart_recovers_document() {
    for n in [1usize, 4095, 4096, 4097] {
        let mut state = fresh_state();
        let x = text_of_len(n);
        set(&mut state, &x);
        let mmap = state.close();
        let reopened = State::new(mmap, false, None).unwrap();
        assert_eq!(reopened.get_json(), x);
    }
}

#[test]
fn reopen_of_empty_file_is_empty() {
    let mmap = MmapMut::map_anon(PAGE_SIZE).unwrap();
    let state = State::new(mmap, false, None).unwrap();
    assert_eq!(state.get_json(), "");
}

#[test]
fn bad_mappings_are_refused() {
    let odd = MmapMut::map_anon(100).unwrap();
    assert!(matches!(State::new(odd, false, None), Err(StoreError::BadMapping)));
}

#[test]
fn lossy_decoding_of_stored_bytes() {
    let mut mmap = MmapMut::map_anon(PAGE_SIZE).unwrap();
    mmap[..3].copy_from_slice(&[b'[', 0xff, b']']);
    let state = State::new(mmap, false, None).unwrap();
    assert_eq!(state.get_json(), "[\u{fffd}]");
}

#[test]
fn document_updates_start_with_bracket() {
    assert!(is_document_update("[]"));
    assert!(!is_document_update("{}"));
    assert!(!is_document_update(""));
    assert!(!is_document_update(" ["));
}
