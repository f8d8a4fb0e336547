use decon::tokenizer::{decode_token_range, get_tiktoken_tokenizer, OmniTokenizer, TokenizerError};

#[test]
fn test_tokenizer_new() {
    let r50k = OmniTokenizer::new("r50k").unwrap();
    assert_eq!(r50k.tokenizer_name, "r50k");
    assert!(r50k.inner.is_some());

    let p50k = OmniTokenizer::new("p50k").unwrap();
    assert_eq!(p50k.tokenizer_name, "p50k");
    assert!(p50k.inner.is_some());

    let p50k_edit = OmniTokenizer::new("p50k_edit").unwrap();
    assert_eq!(p50k_edit.tokenizer_name, "p50k_edit");
    assert!(p50k_edit.inner.is_some());

    let cl100k = OmniTokenizer::new("cl100k").unwrap();
    assert_eq!(cl100k.tokenizer_name, "cl100k");
    assert!(cl100k.inner.is_some());

    let o200k = OmniTokenizer::new("o200k").unwrap();
    assert_eq!(o200k.tokenizer_name, "o200k");
    assert!(o200k.inner.is_some());

    let uniseg = OmniTokenizer::new("uniseg").unwrap();
    assert_eq!(uniseg.tokenizer_name, "uniseg");
    assert!(uniseg.inner.is_none());

    let unknown = OmniTokenizer::new("unknown").unwrap();
    assert_eq!(unknown.tokenizer_name, "unknown");
    assert!(unknown.inner.is_none());
}

#[test]
fn test_encode() {
    let p50k = OmniTokenizer::new("p50k").unwrap();
    assert_eq!(p50k.encode("hello world"), vec![31373, 995]);

    let cl100k = OmniTokenizer::new("cl100k").unwrap();
    assert_eq!(cl100k.encode("hello world"), vec![15339, 1917]);

    let o200k = OmniTokenizer::new("o200k").unwrap();
    let o200k_tokens = o200k.encode("hello world");
    assert_eq!(o200k_tokens.len(), 2);

    let uniseg = OmniTokenizer::new("uniseg").unwrap();
    let uniseg_tokens = uniseg.encode("hello world");
    assert_eq!(uniseg_tokens.len(), 3);

    let unknown = OmniTokenizer::new("unknown").unwrap();
    assert_eq!(unknown.encode("abc"), vec![97, 98, 99]);
}

#[test]
fn test_is_space_token() {
    let cl100k = OmniTokenizer::new("cl100k").unwrap();
    let space_token_cl = cl100k.encode(" ")[0];
    assert!(cl100k.is_space_token(space_token_cl));
    assert!(!cl100k.is_space_token(100));

    let o200k = OmniTokenizer::new("o200k").unwrap();
    let space_token_o200k = o200k.encode(" ")[0];
    assert!(o200k.is_space_token(space_token_o200k));

    let p50k = OmniTokenizer::new("p50k").unwrap();
    let space_token_p50k = p50k.encode(" ")[0];
    assert!(p50k.is_space_token(space_token_p50k));
    assert!(!p50k.is_space_token(100));

    let r50k = OmniTokenizer::new("r50k").unwrap();
    let space_token_r50k = r50k.encode(" ")[0];
    assert!(r50k.is_space_token(space_token_r50k));

    let uniseg = OmniTokenizer::new("uniseg").unwrap();
    assert!(!uniseg.is_space_token(0));
    assert!(!uniseg.is_space_token(12345));

    let unknown = OmniTokenizer::new("unknown").unwrap();
    assert!(unknown.is_space_token(32));
    assert!(!unknown.is_space_token(65));
}

#[test]
fn byte_tokens_follow_utf8() {
    let bytes = OmniTokenizer::new("bytes").unwrap();
    assert_eq!(bytes.encode("é"), vec![0xc3, 0xa9]);
    assert_eq!(bytes.decode(&[0xc3, 0xa9]), "é");
}

#[test]
fn byte_decode_of_invalid_utf8_lists_the_ids() {
    let bytes = OmniTokenizer::new("bytes").unwrap();
    assert_eq!(bytes.decode(&[0xff, 65]), "(decode failed for tokens: [255, 65])");
}

#[test]
fn byte_round_trip_gives_the_text_back() {
    let bytes = OmniTokenizer::new("bytes").unwrap();
    let text = "Contamination: naïve résumé";
    assert_eq!(bytes.decode(&bytes.encode(text)), text);
}

#[test]
fn uniseg_tokens_cannot_be_decoded() {
    let uniseg = OmniTokenizer::new("uniseg").unwrap();
    assert_eq!(uniseg.decode(&[1, 22]), "(uniseg tokens: [1, 22])");
    assert_eq!(uniseg.decode(&[]), "(uniseg tokens: [])");
}

#[test]
fn uniseg_hashes_equal_segments_equally() {
    let uniseg = OmniTokenizer::new("uniseg").unwrap();
    let ids = uniseg.encode("the cat the");
    assert_eq!(ids.len(), 5);
    assert_eq!(ids[0], ids[4]);
    assert_eq!(ids[1], ids[3]);
    assert_ne!(ids[0], ids[2]);
}

#[test]
fn bpe_round_trip_gives_the_text_back() {
    let cl100k = OmniTokenizer::new("cl100k").unwrap();
    assert_eq!(cl100k.decode(&cl100k.encode(" hello world")), " hello world");
}

#[test]
fn byte_space_tokens() {
    let unknown = OmniTokenizer::new("chars").unwrap();
    assert!(unknown.is_space_token(9));
    assert!(unknown.is_space_token(10));
    assert!(unknown.is_space_token(13));
    assert!(unknown.is_space_token(32 + 256));
    assert!(!unknown.is_space_token(0));
}

#[test]
fn known_tokenizers_do_not_fail() {
    for name in ["r50k", "p50k", "p50k_edit", "cl100k", "o200k", "uniseg", "other"] {
        assert!(OmniTokenizer::new(name).is_ok());
    }
    let err: Result<OmniTokenizer, TokenizerError> = Err(TokenizerError::LoadFailed);
    assert!(err.is_err());
}

#[test]
fn readme_tokenizer_round_trip() {
    let t = decon::tokenizer::OmniTokenizer::new("cl100k").ok().unwrap();
    let tokens = t.encode("hello world");
    assert_eq!(tokens, vec![15339, 1917]);
    assert_eq!(t.decode(&tokens), "hello world");
}

#[test]
fn tiktoken_names_load_and_others_do_not() {
    for name in ["r50k", "p50k", "p50k_edit", "cl100k", "o200k"] {
        assert!(get_tiktoken_tokenizer(name).is_some());
    }
    assert!(get_tiktoken_tokenizer("uniseg").is_none());
    assert!(get_tiktoken_tokenizer("gpt2").is_none());
}

#[test]
fn decoding_a_token_range_gives_that_part_of_the_text() {
    let bpe = get_tiktoken_tokenizer("cl100k").unwrap();
    let tokens = bpe.encode_ordinary("hello big world");
    assert_eq!(tokens.len(), 3);
    assert_eq!(decode_token_range(&bpe, &tokens, 1, 3), Some(" big world".to_string()));
    assert_eq!(decode_token_range(&bpe, &tokens, 0, 1), Some("hello".to_string()));
    assert_eq!(decode_token_range(&bpe, &tokens, 2, 2), Some(String::new()));
}

#[test]
fn decode_gives_back_what_encode_made() {
    for name in ["r50k", "p50k", "p50k_edit", "cl100k", "o200k", "bytes"] {
        let tok = OmniTokenizer::new(name).ok().unwrap();
        let text = "hello world, ünïcode text";
        assert_eq!(tok.decode(&tok.encode(text)), text);
    }
    let cl = OmniTokenizer::new("cl100k").ok().unwrap();
    assert_eq!(cl.decode(&[15339, 1917]), "hello world");
}

#[test]
fn try_decode_refuses_ids_outside_the_encoding() {
    let cl = OmniTokenizer::new("cl100k").ok().unwrap();
    assert!(cl.holds_all(&[15339, 1917]));
    assert!(!cl.holds_all(&[100256]));
    assert_eq!(cl.try_decode(&[100256]), None);
    assert_eq!(cl.try_decode(&[15339]).as_deref(), Some("hello"));
    let bytes = OmniTokenizer::new("bytes").ok().unwrap();
    assert!(bytes.holds_all(&[1_000_000]));
}
