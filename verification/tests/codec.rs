use pyramid::decks::{CurrentRunJson, EnabledJson};
use pyramid::json::{
    decode_catalog, decode_current_run, decode_enabled, encode_current_run, encode_enabled,
    DocError,
};

#[test]
fn enabled_encodes_canonically() {
    let e = EnabledJson { disabled: vec![1, 3], enabled: vec![0, 2] };
    let out = encode_enabled(&e);
    assert_eq!(out, b"{\"disabled\":[1,3],\"enabled\":[0,2]}".to_vec());
}

#[test]
fn enabled_empty_lists_encode_canonically() {
    let e = EnabledJson { disabled: vec![], enabled: vec![] };
    assert_eq!(encode_enabled(&e), b"{\"disabled\":[],\"enabled\":[]}".to_vec());
}

#[test]
fn enabled_round_trips() {
    let e = EnabledJson { disabled: vec![4], enabled: vec![0, 2, 9] };
    let out = encode_enabled(&e);
    let back = decode_enabled(&out).unwrap();
    assert_eq!(back.disabled, vec![4]);
    assert_eq!(back.enabled, vec![0, 2, 9]);
}

#[test]
fn enabled_decode_accepts_blank_space() {
    let text = b" {\n\t\"disabled\" : [ 1 ,\r\n 3 ] , \"enabled\" : [ ] } \n".to_vec();
    let back = decode_enabled(&text).unwrap();
    assert_eq!(back.disabled, vec![1, 3]);
    assert_eq!(back.enabled, Vec::<usize>::new());
}

#[test]
fn enabled_decode_rejects_wrong_key_order() {
    let text = b"{\"enabled\":[],\"disabled\":[]}".to_vec();
    assert!(matches!(decode_enabled(&text), Err(DocError::Parse)));
}

#[test]
fn enabled_decode_rejects_trailing_content() {
    let text = b"{\"disabled\":[],\"enabled\":[]}x".to_vec();
    assert!(matches!(decode_enabled(&text), Err(DocError::Parse)));
}

#[test]
fn enabled_decode_rejects_huge_number() {
    let text = b"{\"disabled\":[99999999999999999999999999],\"enabled\":[]}".to_vec();
    assert!(matches!(decode_enabled(&text), Err(DocError::Parse)));
}

#[test]
fn enabled_decode_rejects_duplicate_index() {
    let text = b"{\"disabled\":[],\"enabled\":[1,1]}".to_vec();
    assert!(matches!(decode_enabled(&text), Err(DocError::Parse)));
}

#[test]
fn enabled_decode_rejects_index_in_both_lists() {
    let text = b"{\"disabled\":[2],\"enabled\":[2]}".to_vec();
    assert!(matches!(decode_enabled(&text), Err(DocError::Parse)));
}

#[test]
fn enabled_decode_rejects_empty_input() {
    assert!(matches!(decode_enabled(&Vec::new()), Err(DocError::Parse)));
}

#[test]
fn run_encodes_canonically() {
    let r = CurrentRunJson { decks: vec![2, 5], score: 10, hand: vec![0] };
    assert_eq!(encode_current_run(&r), b"{\"decks\":[2,5],\"score\":10,\"hand\":[0]}".to_vec());
}

#[test]
fn run_round_trips() {
    let r = CurrentRunJson { decks: vec![7, 1], score: 340, hand: vec![3, 3, 9] };
    let out = encode_current_run(&r);
    let back = decode_current_run(&out).unwrap();
    assert_eq!(back.decks, vec![7, 1]);
    assert_eq!(back.score, 340);
    assert_eq!(back.hand, vec![3, 3, 9]);
}

#[test]
fn run_decode_accepts_blank_space() {
    let text = b"{ \"decks\" : [1] , \"score\" : 7 , \"hand\" : [] }".to_vec();
    let back = decode_current_run(&text).unwrap();
    assert_eq!(back.decks, vec![1]);
    assert_eq!(back.score, 7);
    assert_eq!(back.hand, Vec::<usize>::new());
}

#[test]
fn run_decode_rejects_missing_field() {
    let text = b"{\"decks\":[1],\"hand\":[]}".to_vec();
    assert!(matches!(decode_current_run(&text), Err(DocError::Parse)));
}

#[test]
fn run_decode_rejects_negative_score() {
    let text = b"{\"decks\":[],\"score\":-1,\"hand\":[]}".to_vec();
    assert!(matches!(decode_current_run(&text), Err(DocError::Parse)));
}

#[test]
fn catalog_decodes_entries_in_order() {
    let text = b"{\"decks\":[\
        {\"primary_cards\":10,\"name\":\"Pyramid\",\"file\":\"decks/a.png\",\
         \"back_file\":\"backs/a.png\",\"secondary_cards\":5},\
        {\"primary_cards\":3,\"name\":\"Side \\\"B\\\"\",\"file\":\"decks/b.png\",\
         \"back_file\":\"backs/b.png\",\"secondary_cards\":0}]}"
        .to_vec();
    let w = decode_catalog(&text).unwrap();
    assert_eq!(w.decks.len(), 2);
    assert_eq!(w.decks[0].primary_cards, 10);
    assert_eq!(w.decks[0].name, b"Pyramid".to_vec());
    assert_eq!(w.decks[0].file, b"decks/a.png".to_vec());
    assert_eq!(w.decks[0].back_file, b"backs/a.png".to_vec());
    assert_eq!(w.decks[0].secondary_cards, 5);
    assert_eq!(w.decks[1].name, b"Side \"B\"".to_vec());
    assert_eq!(w.decks[1].secondary_cards, 0);
}

#[test]
fn catalog_decodes_escapes_and_blank_space() {
    let text = b"{ \"decks\" : [ {\"primary_cards\":1, \"name\":\"a\\nb\\tc\\\\d\",\
        \"file\":\"f\", \"back_file\":\"g\", \"secondary_cards\":2} ] }"
        .to_vec();
    let w = decode_catalog(&text).unwrap();
    assert_eq!(w.decks[0].name, b"a\nb\tc\\d".to_vec());
}

#[test]
fn catalog_decodes_empty_list() {
    let w = decode_catalog(&b"{\"decks\":[]}".to_vec()).unwrap();
    assert_eq!(w.decks.len(), 0);
}

#[test]
fn catalog_rejects_unknown_escape() {
    let text = b"{\"decks\":[{\"primary_cards\":1,\"name\":\"a\\u0041\",\"file\":\"f\",\
        \"back_file\":\"g\",\"secondary_cards\":2}]}"
        .to_vec();
    assert!(matches!(decode_catalog(&text), Err(DocError::Parse)));
}

#[test]
fn catalog_rejects_unterminated_string() {
    let text = b"{\"decks\":[{\"primary_cards\":1,\"name\":\"oops".to_vec();
    assert!(matches!(decode_catalog(&text), Err(DocError::Parse)));
}

#[test]
fn catalog_back_files_lists_every_entry() {
    let text = b"{\"decks\":[{\"primary_cards\":1,\"name\":\"a\",\"file\":\"fa\",\
        \"back_file\":\"ba\",\"secondary_cards\":1},{\"primary_cards\":2,\"name\":\"b\",\
        \"file\":\"fb\",\"back_file\":\"bb\",\"secondary_cards\":2}]}"
        .to_vec();
    let w = decode_catalog(&text).unwrap();
    let backs = w.back_files();
    assert_eq!(backs, vec![b"ba".to_vec(), b"bb".to_vec()]);
}

#[test]
fn io_error_is_distinct_from_parse_error() {
    assert_ne!(DocError::Io, DocError::Parse);
}

#[test]
fn largest_index_round_trips() {
    let e = EnabledJson { disabled: vec![usize::MAX], enabled: vec![0] };
    let out = encode_enabled(&e);
    let expect = format!("{{\"disabled\":[{}],\"enabled\":[0]}}", usize::MAX);
    assert_eq!(out, expect.into_bytes());
    let back = decode_enabled(&out).unwrap();
    assert_eq!(back.disabled, vec![usize::MAX]);
}

#[test]
fn largest_score_round_trips() {
    let r = CurrentRunJson { decks: vec![], score: usize::MAX, hand: vec![] };
    let back = decode_current_run(&encode_current_run(&r)).unwrap();
    assert_eq!(back.score, usize::MAX);
}

#[test]
fn one_past_the_largest_index_is_rejected() {
    let text = format!("{{\"disabled\":[],\"enabled\":[{}0]}}", usize::MAX / 10 + 1);
    assert!(matches!(decode_enabled(&text.into_bytes()), Err(DocError::Parse)));
}
