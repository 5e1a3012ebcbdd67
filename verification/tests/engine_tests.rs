use scaffold::engine::{parse, prepare_contents, resolve_args};
use scaffold::model::{ArgSpec, ContentEntry, ResolvedArg, SubstitutionError, Template};

fn arg(key: &[u8], value: &[u8]) -> ResolvedArg {
    ResolvedArg { key: key.to_vec(), value: value.to_vec() }
}

#[test]
fn parse_without_tokens_returns_input_unchanged() {
    let ctx = vec![arg(b"k", b"v")];
    let payload = b"plain text, no markers".to_vec();
    let out = parse(&payload, &ctx).unwrap();
    assert_eq!(out, payload);
}

#[test]
fn parse_replaces_every_occurrence() {
    let ctx = vec![arg(b"name", b"world")];
    let payload = b"hello {{name}}, again {{name}}!".to_vec();
    let out = parse(&payload, &ctx).unwrap();
    assert_eq!(out, b"hello world, again world!".to_vec());
}

#[test]
fn parse_uses_first_matching_key() {
    let ctx = vec![arg(b"k", b"first"), arg(b"k", b"second")];
    let out = parse(&b"{{k}}".to_vec(), &ctx).unwrap();
    assert_eq!(out, b"first".to_vec());
}

#[test]
fn parse_unknown_key_is_fatal() {
    let ctx = vec![arg(b"k", b"v")];
    let r = parse(&b"before {{z}} after".to_vec(), &ctx);
    assert_eq!(r.unwrap_err(), SubstitutionError::UnknownKey);
}

#[test]
fn parse_outer_marker_absorbs_inner() {
    // a declared key holding an open marker absorbs what looks like an
    // inner token: the scanned key runs to the first close marker
    let ctx = vec![arg(b"a{{z", b"V")];
    let out = parse(&b"{{a{{z}}".to_vec(), &ctx).unwrap();
    assert_eq!(out, b"V".to_vec());
}

#[test]
fn parse_tolerates_unclosed_marker() {
    let ctx = vec![arg(b"k", b"v")];
    let payload = b"open {{k and no close".to_vec();
    let out = parse(&payload, &ctx).unwrap();
    assert_eq!(out, payload);
}

#[test]
fn parse_twice_yields_same_output() {
    let ctx = vec![arg(b"k", b"value")];
    let first = parse(&b"x {{k}} y".to_vec(), &ctx).unwrap();
    let second = parse(&first, &ctx).unwrap();
    assert_eq!(first, second);
}

#[test]
fn resolve_args_empty_response_takes_default() {
    let specs = vec![ArgSpec { key: b"k".to_vec(), prompt: b"k?".to_vec(), default: Some(b"d".to_vec()) }];
    let responses = vec![Vec::new()];
    let ctx = resolve_args(&specs, &responses);
    assert_eq!(ctx.len(), 1);
    assert_eq!(ctx[0].key, b"k".to_vec());
    assert_eq!(ctx[0].value, b"d".to_vec());
}

#[test]
fn resolve_args_empty_response_without_default_is_empty() {
    let specs = vec![ArgSpec { key: b"k".to_vec(), prompt: b"k?".to_vec(), default: None }];
    let responses = vec![Vec::new()];
    let ctx = resolve_args(&specs, &responses);
    assert_eq!(ctx[0].value, Vec::<u8>::new());
}

#[test]
fn resolve_args_nonempty_response_wins_over_default() {
    let specs = vec![ArgSpec { key: b"k".to_vec(), prompt: b"k?".to_vec(), default: Some(b"d".to_vec()) }];
    let responses = vec![b"given".to_vec()];
    let ctx = resolve_args(&specs, &responses);
    assert_eq!(ctx[0].value, b"given".to_vec());
}

#[test]
fn prepare_contents_without_args_is_byte_identical() {
    // non-UTF8 payload: the bypass must not touch the bytes
    let payload = vec![0xffu8, 0xfe, 0x00, 0x7b, 0x7b, 0x80];
    let template = Template {
        paths: Vec::new(),
        contents: vec![ContentEntry { file_path: b"bin".to_vec(), payload: payload.clone() }],
        args: None,
    };
    let out = prepare_contents(&template, &Vec::new()).unwrap();
    assert_eq!(out.len(), 1);
    assert_eq!(out[0].file_path, b"bin".to_vec());
    assert_eq!(out[0].payload, payload);
}

#[test]
fn prepare_contents_substitutes_with_shared_context() {
    let specs = vec![ArgSpec { key: b"n".to_vec(), prompt: b"n?".to_vec(), default: None }];
    let ctx = resolve_args(&specs, &vec![b"alpha".to_vec()]);
    let template = Template {
        paths: Vec::new(),
        contents: vec![
            ContentEntry { file_path: b"a".to_vec(), payload: b"one {{n}}".to_vec() },
            ContentEntry { file_path: b"b".to_vec(), payload: b"two {{n}}".to_vec() },
        ],
        args: Some(specs),
    };
    let out = prepare_contents(&template, &ctx).unwrap();
    assert_eq!(out[0].payload, b"one alpha".to_vec());
    assert_eq!(out[1].payload, b"two alpha".to_vec());
}

#[test]
fn prepare_contents_unknown_key_aborts() {
    let specs = vec![ArgSpec { key: b"n".to_vec(), prompt: b"n?".to_vec(), default: None }];
    let ctx = resolve_args(&specs, &vec![b"alpha".to_vec()]);
    let template = Template {
        paths: Vec::new(),
        contents: vec![ContentEntry { file_path: b"a".to_vec(), payload: b"{{z}}".to_vec() }],
        args: Some(specs),
    };
    let r = prepare_contents(&template, &ctx);
    assert_eq!(r.unwrap_err(), SubstitutionError::UnknownKey);
}
