//! Tokenizers: the BPE encodings of tiktoken, word-boundary segments hashed
//! to ids, or the bytes of the text.

use std::collections::hash_map::DefaultHasher;
use std::hash::Hasher;
use tiktoken_rs::{cl100k_base, o200k_base, p50k_base, p50k_edit, r50k_base, CoreBPE};
use unicode_segmentation::UnicodeSegmentation;
use vstd::prelude::*;
use vstd::std_specs::hash::DefaultHasherAdditionalSpecFns;
use vstd::string::StringSliceAdditionalSpecFns;
use vstd::utf8::{decode_utf8, encode_utf8, valid_utf8};
use crate::display::{decimal, decimal_digits};
use crate::text::{chars_of, is_white_space, spec_trim, string_from_chars, trim_white_space};

verus! {

#[verifier::external_type_specification]
#[verifier::external_body]
pub struct ExCoreBPE(CoreBPE);

/// The segments of a text between its Unicode word boundaries (UAX #29),
/// as `unicode_segmentation` splits it.
pub uninterp spec fn word_bound_segments(text: Seq<char>) -> Seq<Seq<char>>;

/// The abstract values of a sequence of strings.
pub open spec fn strings_view(v: Seq<String>) -> Seq<Seq<char>> {
    v.map_values(|s: String| s@)
}

/// The ids that a BPE encoding holds: the keys of its tables from ids to
/// bytes (the ranks of its vocabulary and its special tokens).
pub uninterp spec fn bpe_token_ids(bpe: CoreBPE) -> Set<usize>;

/// Whether an id belongs to the BPE encoding of a name, as the vocabulary
/// files and special tokens built into `tiktoken_rs` lay them out.
pub open spec fn encoding_has_token(name: Seq<char>, t: usize) -> bool {
    if name == "r50k"@ {
        t <= 50256
    } else if name == "p50k"@ {
        t <= 50280
    } else if name == "p50k_edit"@ {
        t <= 50283
    } else if name == "cl100k"@ {
        t <= 100255 || (100257 <= t <= 100260) || t == 100276
    } else if name == "o200k"@ {
        t <= 199997 || t == 199999 || t == 200018
    } else {
        false
    }
}

/// The ids of the BPE encoding of a name.
pub open spec fn encoding_token_ids(name: Seq<char>) -> Set<usize> {
    Set::new(|t: usize| encoding_has_token(name, t))
}

/// Loads the r50k encoding (`tiktoken_rs::r50k_base`) from the data built into
/// the crate. The crate documents that it initializes and returns the encoding,
/// and itself unwraps the result where it keeps one; so the result is `Some`.
/// Its ids are the ranks 0 to 50255 of `r50k_base.tiktoken` and the special id
/// 50256.
#[verifier::external_body]
fn load_r50k() -> (res: Option<CoreBPE>)
    ensures
        res is Some,
        bpe_token_ids(res->0) == encoding_token_ids("r50k"@),
{
    r50k_base().ok()
}

/// Loads the p50k encoding (`tiktoken_rs::p50k_base`) from the data built into
/// the crate. The crate documents that it initializes and returns the encoding,
/// and itself unwraps the result where it keeps one; so the result is `Some`.
/// Its ids are the ranks 0 to 50280 of `p50k_base.tiktoken` (50256 is not among
/// them) and the special id 50256.
#[verifier::external_body]
fn load_p50k() -> (res: Option<CoreBPE>)
    ensures
        res is Some,
        bpe_token_ids(res->0) == encoding_token_ids("p50k"@),
{
    p50k_base().ok()
}

/// Loads the p50k edit encoding (`tiktoken_rs::p50k_edit`) from the data built
/// into the crate. The crate documents that it initializes and returns the
/// encoding, and itself unwraps the result where it keeps one; so the result is
/// `Some`. Its ids are the ranks 0 to 50280 of `p50k_base.tiktoken`, the
/// special id 50256 and the special ids 50281 to 50283.
#[verifier::external_body]
fn load_p50k_edit() -> (res: Option<CoreBPE>)
    ensures
        res is Some,
        bpe_token_ids(res->0) == encoding_token_ids("p50k_edit"@),
{
    p50k_edit().ok()
}

/// Loads the cl100k encoding (`tiktoken_rs::cl100k_base`) from the data built
/// into the crate. The crate documents that it initializes and returns the
/// encoding, and itself unwraps the result where it keeps one; so the result is
/// `Some`. Its ids are the ranks 0 to 100255 of `cl100k_base.tiktoken` and the
/// special ids 100257 to 100260 and 100276.
#[verifier::external_body]
fn load_cl100k() -> (res: Option<CoreBPE>)
    ensures
        res is Some,
        bpe_token_ids(res->0) == encoding_token_ids("cl100k"@),
{
    cl100k_base().ok()
}

/// Loads the o200k encoding (`tiktoken_rs::o200k_base`) from the data built
/// into the crate. The crate documents that it initializes and returns the
/// encoding, and itself unwraps the result where it keeps one; so the result is
/// `Some`. Its ids are the ranks 0 to 199997 of `o200k_base.tiktoken` and the
/// special ids 199999 and 200018.
#[verifier::external_body]
fn load_o200k() -> (res: Option<CoreBPE>)
    ensures
        res is Some,
        bpe_token_ids(res->0) == encoding_token_ids("o200k"@),
{
    o200k_base().ok()
}

/// What encoding a text under a BPE encoding gives (`CoreBPE::encode_ordinary`,
/// special tokens read as plain text): the ids, or `None` where the crate's
/// pattern search fails on the text (it then panics).
pub uninterp spec fn bpe_encoded(bpe: CoreBPE, text: Seq<char>) -> Option<Seq<usize>>;

/// What decoding token ids under a BPE encoding gives (`CoreBPE::decode`):
/// the text of the ids' bytes, or `None` when those bytes are not UTF-8.
/// The bytes of each id come from the encoding's tables.
pub uninterp spec fn bpe_decoded(bpe: CoreBPE, tokens: Seq<usize>) -> Option<Seq<char>>;

/// The text held by an optional string.
pub open spec fn opt_text(o: Option<String>) -> Option<Seq<char>> {
    match o {
        Some(s) => Some(s@),
        None => None,
    }
}

/// The token ids of a text under a BPE encoding (`CoreBPE::encode_ordinary`),
/// on a text whose pattern search succeeds. The ids are ranks of the
/// encoding's vocabulary, so it holds each of them; and since the pattern's
/// matches cover the text and byte-pair merging keeps the bytes of each
/// match, the ids decode back to the text.
#[verifier::external_body]
fn bpe_encode_ordinary(bpe: &CoreBPE, text: &str) -> (ids: Vec<usize>)
    requires
        bpe_encoded(*bpe, text@) is Some,
    ensures
        bpe_encoded(*bpe, text@) == Some(ids@),
        forall|i: int| 0 <= i < ids@.len() ==> bpe_token_ids(*bpe).contains(#[trigger] ids@[i]),
        bpe_decoded(*bpe, ids@) == Some(text@),
{
    bpe.encode_ordinary(text)
}

/// The text of token ids under a BPE encoding (`CoreBPE::decode`), for ids
/// that the encoding holds: `None` when their bytes are not UTF-8.
#[verifier::external_body]
fn bpe_decode(bpe: &CoreBPE, tokens: &[usize]) -> (res: Option<String>)
    requires
        forall|i: int| 0 <= i < tokens@.len() ==> bpe_token_ids(*bpe).contains(#[trigger] tokens@[i]),
    ensures
        opt_text(res) == bpe_decoded(*bpe, tokens@),
{
    bpe.decode(tokens.to_vec()).ok()
}

/// The segments of a text between its word boundaries
/// (`UnicodeSegmentation::split_word_bounds`); the crate documents that
/// they concatenate to the text.
#[verifier::external_body]
fn split_word_bounds(text: &str) -> (segments: Vec<String>)
    ensures
        strings_view(segments@) == word_bound_segments(text@),
        strings_view(segments@).flatten() == text@,
{
    text.split_word_bounds().map(|w| w.to_string()).collect()
}

/// The string of UTF-8 bytes (`String::from_utf8`): `None` exactly when the
/// bytes are not UTF-8.
#[verifier::external_body]
fn string_from_utf8(bytes: Vec<u8>) -> (res: Option<String>)
    ensures
        match res {
            Some(s) => valid_utf8(bytes@) && s@ == decode_utf8(bytes@),
            None => !valid_utf8(bytes@),
        },
{
    String::from_utf8(bytes).ok()
}

/// Whether a name is one of the BPE encodings that the tokenizer loads.
pub open spec fn is_bpe_name(name: Seq<char>) -> bool {
    name == "r50k"@ || name == "p50k"@ || name == "p50k_edit"@ || name == "cl100k"@ || name == "o200k"@
}

/// The hash of a word-boundary segment: the hash of the string, its bytes
/// and then a marker byte.
pub open spec fn segment_hash(s: Seq<char>) -> usize {
    DefaultHasher::spec_finish(seq![encode_utf8(s), seq![0xffu8]]) as usize
}

/// The ids of a byte-level tokenization: each UTF-8 byte of the text.
pub open spec fn byte_tokens(text: Seq<char>) -> Seq<usize> {
    encode_utf8(text).map_values(|b: u8| b as usize)
}

/// The numbers written as a list, as in `[1, 2, 3]`.
pub open spec fn list_text(ts: Seq<usize>) -> Seq<char> {
    seq!['['] + list_items(ts) + seq![']']
}

/// The numbers in decimal, separated by a comma and a space.
pub open spec fn list_items(ts: Seq<usize>) -> Seq<char>
    decreases ts.len(),
{
    if ts.len() == 0 {
        Seq::empty()
    } else if ts.len() == 1 {
        decimal_digits(ts[0] as nat)
    } else {
        list_items(ts.drop_last()) + seq![',', ' '] + decimal_digits(ts.last() as nat)
    }
}

/// The text that stands for ids that could not be decoded.
pub open spec fn decode_failure_text(ts: Seq<usize>) -> Seq<char> {
    "(decode failed for tokens: "@ + list_text(ts) + ")"@
}

/// The text that stands for word-segment ids, which cannot be decoded.
pub open spec fn segment_ids_text(ts: Seq<usize>) -> Seq<char> {
    "(uniseg tokens: "@ + list_text(ts) + ")"@
}

/// The cl100k ids that decode to white space only.
pub open spec fn cl100k_space(t: usize) -> bool {
    match t {
        197 | 198 | 199 | 200 | 201 | 216 | 217 | 218 | 219 | 220 | 256 | 257 | 260 | 262 | 271
        | 286 | 298 | 310 | 319 | 338 | 394 | 415 | 465 | 504 | 573 | 667 | 692 | 720 | 792
        | 881 | 996 | 1014 | 1038 | 1078 | 1084 | 1164 | 1408 | 1432 | 1602 | 1696 | 1733
        | 1827 | 1835 | 1881 | 1961 => true,
        _ => false,
    }
}

/// The o200k ids that decode to white space only.
pub open spec fn o200k_space(t: usize) -> bool {
    match t {
        197 | 198 | 199 | 200 | 201 | 216 | 217 | 218 | 219 | 220 | 256 | 257 | 269 | 271 | 279
        | 309 | 335 | 352 | 370 | 408 | 506 | 530 | 626 | 699 | 793 | 833 | 968 | 983 | 1202
        | 1213 | 1397 | 1414 | 1686 | 1698 | 1699 | 1944 | 1999 => true,
        _ => false,
    }
}

/// The ids of the p50k and r50k families that decode to white space only.
pub open spec fn gpt2_space(t: usize) -> bool {
    match t {
        197 | 198 | 199 | 200 | 201 | 216 | 217 | 218 | 219 | 220 | 628 | 1849 => true,
        _ => false,
    }
}

/// Whether a byte-level id is a space, tab, newline or carriage return.
pub open spec fn byte_space(t: usize) -> bool {
    let b = t as u8;
    b == 32 || b == 9 || b == 10 || b == 13
}

/// Why a tokenizer could not be made.
#[derive(Debug, PartialEq, Eq, Structural)]
pub enum TokenizerError {
    /// The named BPE encoding failed to load.
    LoadFailed,
}

/// A tokenizer chosen by name: a BPE encoding of tiktoken, `uniseg` for
/// hashed word-boundary segments, or bytes for any other name.
pub struct OmniTokenizer {
    pub tokenizer_name: String,
    pub inner: Option<CoreBPE>,
}

fn name_is(name: &str, lit: &str) -> (res: bool)
    ensures
        res == (name@ == lit@),
{
    let a = chars_of(name);
    let b = chars_of(lit);
    if a.len() != b.len() {
        return false;
    }
    let mut i: usize = 0;
    while i < a.len()
        invariant
            i <= a@.len(),
            a@.len() == b@.len(),
            a@ == name@,
            b@ == lit@,
            forall|j: int| 0 <= j < i ==> a@[j] == b@[j],
        decreases a@.len() - i,
    {
        if a[i] != b[i] {
            return false;
        }
        i = i + 1;
    }
    assert(a@ =~= b@);
    true
}

/// Loads the BPE encoding of a name; `None` exactly for a name that is not
/// one of them. The encoding holds the ids of that name.
pub fn get_tiktoken_tokenizer(name: &str) -> (res: Option<CoreBPE>)
    ensures
        res is Some <==> is_bpe_name(name@),
        res matches Some(b) ==> bpe_token_ids(b) == encoding_token_ids(name@),
{
    if name_is(name, "r50k") {
        load_r50k()
    } else if name_is(name, "p50k") {
        load_p50k()
    } else if name_is(name, "p50k_edit") {
        load_p50k_edit()
    } else if name_is(name, "cl100k") {
        load_cl100k()
    } else if name_is(name, "o200k") {
        load_o200k()
    } else {
        None
    }
}

/// Whether an id belongs to the BPE encoding of a name.
pub fn encoding_contains(name: &str, t: usize) -> (res: bool)
    ensures
        res == encoding_has_token(name@, t),
{
    if name_is(name, "r50k") {
        t <= 50256
    } else if name_is(name, "p50k") {
        t <= 50280
    } else if name_is(name, "p50k_edit") {
        t <= 50283
    } else if name_is(name, "cl100k") {
        t <= 100255 || (100257 <= t && t <= 100260) || t == 100276
    } else if name_is(name, "o200k") {
        t <= 199997 || t == 199999 || t == 200018
    } else {
        false
    }
}

fn push_all(out: &mut Vec<char>, cs: &Vec<char>)
    ensures
        final(out)@ == old(out)@ + cs@,
{
    let ghost start = out@;
    let mut i: usize = 0;
    while i < cs.len()
        invariant
            i <= cs@.len(),
            out@ == start + cs@.take(i as int),
        decreases cs@.len() - i,
    {
        out.push(cs[i]);
        proof {
            assert(cs@.take(i + 1) =~= cs@.take(i as int).push(cs@[i as int]));
        }
        i = i + 1;
    }
    assert(cs@.take(cs@.len() as int) =~= cs@);
}

/// A list of ids written out between a prefix and a closing parenthesis.
fn ids_message(prefix: &str, tokens: &[usize]) -> (res: String)
    ensures
        res@ == prefix@ + list_text(tokens@) + ")"@,
{
    let mut out = chars_of(prefix);
    out.push('[');
    let ghost start = out@;
    let mut i: usize = 0;
    while i < tokens.len()
        invariant
            i <= tokens@.len(),
            out@ == start + list_items(tokens@.take(i as int)),
        decreases tokens@.len() - i,
    {
        if i > 0 {
            out.push(',');
            out.push(' ');
        }
        let d = decimal(tokens[i]);
        push_all(&mut out, &d);
        proof {
            let t = tokens@.take(i + 1);
            assert(t.drop_last() =~= tokens@.take(i as int));
            if i == 0 {
                assert(list_items(tokens@.take(0)) =~= Seq::<char>::empty());
            }
        }
        i = i + 1;
    }
    assert(tokens@.take(tokens@.len() as int) =~= tokens@);
    out.push(']');
    let close = chars_of(")");
    push_all(&mut out, &close);
    let n = out.len();
    let res = string_from_chars(&out, 0, n);
    assert(res@ =~= prefix@ + list_text(tokens@) + ")"@);
    res
}

/// The ids of the word-boundary segments of a text, each segment hashed.
fn segment_ids(text: &str) -> (ids: Vec<usize>)
    ensures
        ids@ == word_bound_segments(text@).map_values(|s: Seq<char>| segment_hash(s)),
{
    let segments = split_word_bounds(text);
    let mut ids: Vec<usize> = Vec::new();
    let mut i: usize = 0;
    while i < segments.len()
        invariant
            i <= segments@.len(),
            strings_view(segments@) == word_bound_segments(text@),
            ids@ == word_bound_segments(text@).take(i as int).map_values(|s: Seq<char>| segment_hash(s)),
        decreases segments@.len() - i,
    {
        let mut hasher = DefaultHasher::new();
        let w = segments[i].as_str();
        hasher.write(w.as_bytes());
        let marker: [u8; 1] = [0xff];
        hasher.write(&marker);
        proof {
            assert(marker@ =~= seq![0xffu8]);
            assert(hasher@ =~= seq![encode_utf8(w@), seq![0xffu8]]);
        }
        let h = hasher.finish();
        ids.push(h as usize);
        proof {
            let ws = word_bound_segments(text@);
            assert(ws[i as int] == segments@[i as int]@);
            assert(ws.take(i + 1).map_values(|s: Seq<char>| segment_hash(s)) =~= ws.take(i as int).map_values(
                |s: Seq<char>| segment_hash(s),
            ).push(segment_hash(ws[i as int])));
        }
        i = i + 1;
    }
    assert(word_bound_segments(text@).take(segments@.len() as int) =~= word_bound_segments(text@));
    ids
}

/// The UTF-8 bytes of a text, each as an id.
fn byte_ids(text: &str) -> (ids: Vec<usize>)
    ensures
        ids@ == byte_tokens(text@),
{
    let bytes = text.as_bytes();
    let mut ids: Vec<usize> = Vec::new();
    let mut i: usize = 0;
    while i < bytes.len()
        invariant
            i <= bytes@.len(),
            bytes@ == encode_utf8(text@),
            ids@ == bytes@.take(i as int).map_values(|b: u8| b as usize),
        decreases bytes@.len() - i,
    {
        ids.push(bytes[i] as usize);
        proof {
            assert(bytes@.take(i + 1).map_values(|b: u8| b as usize) =~= bytes@.take(i as int).map_values(
                |b: u8| b as usize,
            ).push(bytes@[i as int] as usize));
        }
        i = i + 1;
    }
    assert(bytes@.take(bytes@.len() as int) =~= bytes@);
    ids
}

/// Each id as a byte (its low eight bits).
fn ids_to_bytes(tokens: &[usize]) -> (bytes: Vec<u8>)
    ensures
        bytes@ == tokens@.map_values(|t: usize| t as u8),
{
    let mut bytes: Vec<u8> = Vec::new();
    let mut i: usize = 0;
    while i < tokens.len()
        invariant
            i <= tokens@.len(),
            bytes@ == tokens@.take(i as int).map_values(|t: usize| t as u8),
        decreases tokens@.len() - i,
    {
        bytes.push(tokens[i] as u8);
        proof {
            assert(tokens@.take(i + 1).map_values(|t: usize| t as u8) =~= tokens@.take(i as int).map_values(
                |t: usize| t as u8,
            ).push(tokens@[i as int] as u8));
        }
        i = i + 1;
    }
    assert(tokens@.take(tokens@.len() as int) =~= tokens@);
    bytes
}

impl OmniTokenizer {
    /// A tokenizer as `new` makes it: an encoding only under one of the BPE
    /// names, and then the encoding of that name.
    pub open spec fn wf(&self) -> bool {
        self.inner matches Some(b) ==> is_bpe_name(self.tokenizer_name@) && bpe_token_ids(b)
            == encoding_token_ids(self.tokenizer_name@)
    }

    /// Whether the tokenizer's encoding, where it has one, holds every id.
    pub open spec fn holds_tokens(&self, tokens: Seq<usize>) -> bool {
        self.inner matches Some(b) ==> forall|i: int| 0 <= i < tokens.len() ==> bpe_token_ids(b).contains(
            #[trigger] tokens[i],
        )
    }

    /// Whether `ids` are what encoding `text` gives: under a BPE encoding its
    /// ids, which decode back to the text; for `uniseg` the hash of each
    /// word-boundary segment; else the UTF-8 bytes.
    pub open spec fn encoded(&self, text: Seq<char>, ids: Seq<usize>) -> bool {
        match self.inner {
            Some(b) => bpe_encoded(b, text) == Some(ids) && bpe_decoded(b, ids) == Some(text),
            None => ids == if self.tokenizer_name@ == "uniseg"@ {
                word_bound_segments(text).map_values(|s: Seq<char>| segment_hash(s))
            } else {
                byte_tokens(text)
            },
        }
    }

    /// The text that decoding ids gives: under a BPE encoding its decoding,
    /// or a note listing the ids when they are not UTF-8; for `uniseg` a note
    /// listing the ids; else the text of their low bytes, or the note.
    pub open spec fn decoded(&self, tokens: Seq<usize>) -> Seq<char> {
        match self.inner {
            Some(b) => match bpe_decoded(b, tokens) {
                Some(t) => t,
                None => decode_failure_text(tokens),
            },
            None => if self.tokenizer_name@ == "uniseg"@ {
                segment_ids_text(tokens)
            } else {
                let bytes = tokens.map_values(|t: usize| t as u8);
                if valid_utf8(bytes) {
                    decode_utf8(bytes)
                } else {
                    decode_failure_text(tokens)
                }
            },
        }
    }

    /// The tokenizer of a name. A BPE name loads its encoding; `uniseg` and
    /// every other name need nothing.
    pub fn new(tokenizer_name: &str) -> (res: Result<Self, TokenizerError>)
        ensures
            res is Ok,
            res matches Ok(t) ==> t.tokenizer_name@ == tokenizer_name@ && (t.inner is Some
                <==> is_bpe_name(tokenizer_name@)) && t.wf(),
    {
        let name = String::from_str(tokenizer_name);
        if name_is(tokenizer_name, "r50k") || name_is(tokenizer_name, "p50k") || name_is(
            tokenizer_name,
            "p50k_edit",
        ) || name_is(tokenizer_name, "cl100k") || name_is(tokenizer_name, "o200k") {
            match get_tiktoken_tokenizer(tokenizer_name) {
                Some(bpe) => Ok(OmniTokenizer { tokenizer_name: name, inner: Some(bpe) }),
                None => Err(TokenizerError::LoadFailed),
            }
        } else {
            Ok(OmniTokenizer { tokenizer_name: name, inner: None })
        }
    }

    /// The ids of a text: its BPE encoding when the tokenizer has one; else
    /// for `uniseg` the hash of each word-boundary segment; else its UTF-8
    /// bytes. The encoding's pattern search must succeed on the text.
    pub fn encode(&self, text: &str) -> (ids: Vec<usize>)
        requires
            self.inner matches Some(b) ==> bpe_encoded(b, text@) is Some,
        ensures
            self.encoded(text@, ids@),
            self.holds_tokens(ids@),
    {
        match &self.inner {
            Some(bpe) => bpe_encode_ordinary(bpe, text),
            None => if name_is(self.tokenizer_name.as_str(), "uniseg") {
                segment_ids(text)
            } else {
                byte_ids(text)
            },
        }
    }

    /// The text of ids: the BPE decoding when the tokenizer has one; for
    /// `uniseg` a note listing the ids, which cannot be decoded; else the
    /// string of their low bytes. Ids that do not decode to UTF-8 give a note
    /// listing them. The encoding must hold every id.
    pub fn decode(&self, tokens: &[usize]) -> (text: String)
        requires
            self.holds_tokens(tokens@),
        ensures
            text@ == self.decoded(tokens@),
    {
        match &self.inner {
            Some(bpe) => match bpe_decode(bpe, tokens) {
                Some(s) => s,
                None => ids_message("(decode failed for tokens: ", tokens),
            },
            None => if name_is(self.tokenizer_name.as_str(), "uniseg") {
                ids_message("(uniseg tokens: ", tokens)
            } else {
                let bytes = ids_to_bytes(tokens);
                match string_from_utf8(bytes) {
                    Some(s) => s,
                    None => ids_message("(decode failed for tokens: ", tokens),
                }
            },
        }
    }

    /// Whether the tokenizer's encoding, where it has one, holds every id.
    pub fn holds_all(&self, tokens: &[usize]) -> (res: bool)
        requires
            self.wf(),
        ensures
            res == self.holds_tokens(tokens@),
    {
        if self.inner.is_none() {
            return true;
        }
        let mut i: usize = 0;
        while i < tokens.len()
            invariant
                i <= tokens@.len(),
                self.wf(),
                self.inner is Some,
                forall|j: int| 0 <= j < i ==> encoding_has_token(self.tokenizer_name@, #[trigger] tokens@[j]),
            decreases tokens@.len() - i,
        {
            if !encoding_contains(self.tokenizer_name.as_str(), tokens[i]) {
                proof {
                    let b = self.inner->0;
                    assert(!bpe_token_ids(b).contains(tokens@[i as int]));
                }
                return false;
            }
            i = i + 1;
        }
        proof {
            let b = self.inner->0;
            assert forall|j: int| 0 <= j < tokens@.len() implies bpe_token_ids(b).contains(
                #[trigger] tokens@[j],
            ) by {
                assert(encoding_has_token(self.tokenizer_name@, tokens@[j]));
            }
        }
        true
    }

    /// The text of ids, as `decode` gives it, when the tokenizer's encoding
    /// holds every id; `None` otherwise.
    pub fn try_decode(&self, tokens: &[usize]) -> (res: Option<String>)
        requires
            self.wf(),
        ensures
            res is Some <==> self.holds_tokens(tokens@),
            res matches Some(text) ==> text@ == self.decoded(tokens@),
    {
        if self.holds_all(tokens) {
            Some(self.decode(tokens))
        } else {
            None
        }
    }

    /// Whether an id is white space only, which token-count filters leave
    /// out: a fixed list of ids for each known BPE encoding, none for
    /// `uniseg`; else whether its byte is a space, tab, newline or carriage
    /// return.
    pub fn is_space_token(&self, token_id: usize) -> (res: bool)
        requires
            self.wf(),
        ensures
            ({
                let name = self.tokenizer_name@;
                if name == "cl100k"@ {
                    res == cl100k_space(token_id)
                } else if name == "o200k"@ {
                    res == o200k_space(token_id)
                } else if name == "p50k"@ || name == "p50k_edit"@ || name == "r50k"@ {
                    res == gpt2_space(token_id)
                } else if name == "uniseg"@ {
                    !res
                } else {
                    res == byte_space(token_id)
                }
            }),
    {
        let name = self.tokenizer_name.as_str();
        if name_is(name, "cl100k") {
            match token_id {
                197 | 198 | 199 | 200 | 201 | 216 | 217 | 218 | 219 | 220 | 256 | 257 | 260 | 262
                | 271 | 286 | 298 | 310 | 319 | 338 | 394 | 415 | 465 | 504 | 573 | 667 | 692 | 720
                | 792 | 881 | 996 | 1014 | 1038 | 1078 | 1084 | 1164 | 1408 | 1432 | 1602 | 1696
                | 1733 | 1827 | 1835 | 1881 | 1961 => true,
                _ => false,
            }
        } else if name_is(name, "o200k") {
            match token_id {
                197 | 198 | 199 | 200 | 201 | 216 | 217 | 218 | 219 | 220 | 256 | 257 | 269 | 271
                | 279 | 309 | 335 | 352 | 370 | 408 | 506 | 530 | 626 | 699 | 793 | 833 | 968 | 983
                | 1202 | 1213 | 1397 | 1414 | 1686 | 1698 | 1699 | 1944 | 1999 => true,
                _ => false,
            }
        } else if name_is(name, "p50k") || name_is(name, "p50k_edit") || name_is(name, "r50k") {
            match token_id {
                197 | 198 | 199 | 200 | 201 | 216 | 217 | 218 | 219 | 220 | 628 | 1849 => true,
                _ => false,
            }
        } else if name_is(name, "uniseg") {
            false
        } else {
            match &self.inner {
                Some(bpe) => {
                    let one: [usize; 1] = [token_id];
                    match bpe_decode(bpe, &one) {
                        Some(text) => {
                            let trimmed = trim_white_space(text.as_str());
                            trimmed.as_str().is_empty()
                        },
                        None => false,
                    }
                },
                None => {
                    let b = token_id as u8;
                    b == 32 || b == 9 || b == 10 || b == 13
                },
            }
        }
    }
}

/// Byte-level ids decode back to the text they were made from.
pub proof fn lemma_byte_round_trip(text: Seq<char>)
    ensures
        valid_utf8(byte_tokens(text).map_values(|t: usize| t as u8)),
        decode_utf8(byte_tokens(text).map_values(|t: usize| t as u8)) == text,
{
    let bytes = encode_utf8(text);
    assert(byte_tokens(text).map_values(|t: usize| t as u8) =~= bytes);
    vstd::utf8::encode_utf8_valid_utf8(text);
    vstd::utf8::encode_utf8_decode_utf8(text);
}

/// Decoding what a tokenizer made of a text gives the text back, for every
/// tokenizer but `uniseg`, whose ids are hashes.
pub proof fn lemma_encode_decode_round_trip(t: OmniTokenizer, text: Seq<char>, ids: Seq<usize>)
    requires
        t.tokenizer_name@ != "uniseg"@,
        t.encoded(text, ids),
    ensures
        t.decoded(ids) == text,
{
    if t.inner is None {
        lemma_byte_round_trip(text);
    }
}

/// The ids from `start` up to `end`, each taken by its low 32 bits.
pub open spec fn range_ids(tokens: Seq<usize>, start: int, end: int) -> Seq<usize> {
    tokens.subrange(start, end).map_values(|t: usize| t as u32 as usize)
}

/// Decodes the ids from `start` up to `end` under a BPE encoding, each id
/// taken by its low 32 bits; `None` when they do not decode.
pub fn decode_token_range(bpe: &CoreBPE, tokens: &[usize], start: usize, end: usize) -> (res: Option<String>)
    requires
        start <= end <= tokens@.len(),
        forall|i: int| start <= i < end ==> bpe_token_ids(*bpe).contains(#[trigger] tokens@[i] as u32 as usize),
    ensures
        opt_text(res) == bpe_decoded(*bpe, range_ids(tokens@, start as int, end as int)),
{
    let mut ids: Vec<usize> = Vec::new();
    let mut i: usize = start;
    while i < end
        invariant
            start <= i <= end,
            end <= tokens@.len(),
            forall|j: int| start <= j < end ==> bpe_token_ids(*bpe).contains(#[trigger] tokens@[j] as u32 as usize),
            ids@ == range_ids(tokens@, start as int, i as int),
        decreases end - i,
    {
        ids.push(tokens[i] as u32 as usize);
        proof {
            assert(range_ids(tokens@, start as int, i + 1) =~= range_ids(tokens@, start as int, i as int).push(
                tokens@[i as int] as u32 as usize,
            ));
        }
        i = i + 1;
    }
    let slice = ids.as_slice();
    assert(slice@ == range_ids(tokens@, start as int, end as int));
    assert forall|k: int| 0 <= k < slice@.len() implies bpe_token_ids(*bpe).contains(#[trigger] slice@[k]) by {
        assert(slice@[k] == tokens@[start + k] as u32 as usize);
    }
    bpe_decode(bpe, slice)
}

} // verus!
