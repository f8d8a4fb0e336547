//! The entries of the reference files that hold the evaluation documents,
//! and the filters that decide which of them are indexed.

use vstd::prelude::*;
use crate::text::{chars_of, clean_text, is_white_space, is_white_space_char, spec_clean_text, string_from_chars};
use crate::keyset::{key_view, TextKeySet};
use crate::json::{
    bool_field, bool_member, has_member, json_get, json_parse, parse_json, str_field, str_member, u64_field,
    u64_member, JsonValue,
};

verus! {

/// The fields of one reference line that indexing reads, as found in the
/// line: a field that is missing or of another type is `None`.
pub struct ReferenceFields {
    pub eval_key: Option<String>,
    pub eval_name: Option<String>,
    pub doc_id: Option<u64>,
    pub eval_instance_index: Option<u64>,
    pub fingerprint: Option<String>,
    pub is_correct: Option<bool>,
    pub split: Option<String>,
    pub question: Option<String>,
    /// Whether the line has an `answer` field at all, whatever its type.
    pub has_answer: bool,
    pub answer: Option<String>,
    pub passage: Option<String>,
}

/// Whether fields are those of a reference line's JSON value: each string
/// member as its text, `doc_id` and `eval_instance_index` as non-negative
/// integers, `is_correct` as a boolean, and whether `answer` is there.
pub open spec fn fields_of(f: ReferenceFields, v: JsonValue) -> bool {
    &&& opt_view(f.eval_key) == str_field(v, "eval_key"@)
    &&& opt_view(f.eval_name) == str_field(v, "eval_name"@)
    &&& f.doc_id == u64_field(v, "doc_id"@)
    &&& f.eval_instance_index == u64_field(v, "eval_instance_index"@)
    &&& opt_view(f.fingerprint) == str_field(v, "fingerprint"@)
    &&& f.is_correct == bool_field(v, "is_correct"@)
    &&& opt_view(f.split) == str_field(v, "split"@)
    &&& opt_view(f.question) == str_field(v, "question"@)
    &&& f.has_answer == json_get(v, "answer"@) is Some
    &&& opt_view(f.answer) == str_field(v, "answer"@)
    &&& opt_view(f.passage) == str_field(v, "passage"@)
}

fn str_of(v: &JsonValue, key: &str) -> (r: Option<String>)
    ensures
        opt_view(r) == str_field(*v, key@),
{
    str_member(v, key)
}

/// The fields that indexing reads from a reference line's JSON value.
pub fn reference_fields_of(v: &JsonValue) -> (f: ReferenceFields)
    ensures
        fields_of(f, *v),
{
    ReferenceFields {
        eval_key: str_of(v, "eval_key"),
        eval_name: str_of(v, "eval_name"),
        doc_id: u64_member(v, "doc_id"),
        eval_instance_index: u64_member(v, "eval_instance_index"),
        fingerprint: str_of(v, "fingerprint"),
        is_correct: bool_member(v, "is_correct"),
        split: str_of(v, "split"),
        question: str_of(v, "question"),
        has_answer: has_member(v, "answer"),
        answer: str_of(v, "answer"),
        passage: str_of(v, "passage"),
    }
}

/// The fields that indexing reads from a reference line; `None` exactly
/// when the line is not JSON.
pub fn reference_fields_of_line(line: &str) -> (r: Option<ReferenceFields>)
    ensures
        r is None <==> json_parse(line@) is None,
        r matches Some(f) ==> fields_of(f, json_parse(line@)->0),
{
    match parse_json(line) {
        Some(v) => Some(reference_fields_of(&v)),
        None => None,
    }
}

/// One evaluation document of a reference file.
pub struct ReferenceEntry {
    pub doc_id: u32,
    pub eval_key: String,
    pub eval_instance_index: usize,
    pub has_answer_fields: bool,
    pub fingerprint: Option<String>,
    pub is_correct: Option<bool>,
    pub split: Option<String>,
    pub question_text: String,
    pub answer_text: String,
    pub passage_text: String,
}

/// Why a reference line is not an entry.
#[derive(Debug, PartialEq, Eq, Structural)]
pub enum ReferenceEntryError {
    /// The line has no numeric `doc_id`.
    MissingDocId,
}

/// The view of an optional string.
pub open spec fn opt_view(s: Option<String>) -> Option<Seq<char>> {
    match s {
        Some(t) => Some(t@),
        None => None,
    }
}

/// The text of an optional string field, empty when it is missing.
pub open spec fn text_or_empty(s: Option<String>) -> Seq<char> {
    match s {
        Some(t) => t@,
        None => Seq::empty(),
    }
}

fn take_text(s: Option<String>) -> (t: String)
    ensures
        t@ == text_or_empty(s),
{
    match s {
        Some(t) => t,
        None => String::new(),
    }
}

/// Builds the entry of a reference line: the eval key is `eval_key`, else
/// `eval_name`, else the fallback name; the instance index defaults to the
/// line number; texts default to empty. A line without a `doc_id` is
/// refused; the id keeps its low 32 bits.
pub fn parse_reference_entry(fields: ReferenceFields, line_num: usize, fallback_eval_name: &str) -> (res: Result<
    ReferenceEntry,
    ReferenceEntryError,
>)
    ensures
        fields.doc_id is None <==> res is Err,
        res is Err ==> res == Err::<ReferenceEntry, ReferenceEntryError>(ReferenceEntryError::MissingDocId),
        res matches Ok(e) ==> {
            &&& e.doc_id == fields.doc_id->0 as u32
            &&& e.eval_key@ == match fields.eval_key {
                Some(k) => k@,
                None => match fields.eval_name {
                    Some(n) => n@,
                    None => fallback_eval_name@,
                },
            }
            &&& e.eval_instance_index == match fields.eval_instance_index {
                Some(i) => i as usize,
                None => line_num,
            }
            &&& e.has_answer_fields == fields.has_answer
            &&& opt_view(e.fingerprint) == opt_view(fields.fingerprint)
            &&& e.is_correct == fields.is_correct
            &&& opt_view(e.split) == opt_view(fields.split)
            &&& e.question_text@ == text_or_empty(fields.question)
            &&& e.answer_text@ == text_or_empty(fields.answer)
            &&& e.passage_text@ == text_or_empty(fields.passage)
        },
{
    let doc_id = match fields.doc_id {
        Some(d) => d as u32,
        None => {
            return Err(ReferenceEntryError::MissingDocId);
        },
    };
    let eval_key = match fields.eval_key {
        Some(k) => k,
        None => match fields.eval_name {
            Some(n) => n,
            None => String::from_str(fallback_eval_name),
        },
    };
    let eval_instance_index = match fields.eval_instance_index {
        Some(i) => i as usize,
        None => line_num,
    };
    Ok(
        ReferenceEntry {
            doc_id,
            eval_key,
            eval_instance_index,
            has_answer_fields: fields.has_answer,
            fingerprint: fields.fingerprint,
            is_correct: fields.is_correct,
            split: fields.split,
            question_text: take_text(fields.question),
            answer_text: take_text(fields.answer),
            passage_text: take_text(fields.passage),
        },
    )
}

/// The parts joined by single spaces.
pub open spec fn join_with_spaces(parts: Seq<Seq<char>>) -> Seq<char>
    decreases parts.len(),
{
    if parts.len() == 0 {
        Seq::empty()
    } else if parts.len() == 1 {
        parts[0]
    } else {
        join_with_spaces(parts.drop_last()) + seq![' '] + parts.last()
    }
}

/// The cleaned texts that the length filters read: the passage when
/// passages are indexed, the question, and the answer when answers are
/// indexed and the entry has one; empty parts are left out.
pub open spec fn filtering_parts(
    passage: Seq<char>,
    question: Seq<char>,
    answer: Seq<char>,
    has_answer_fields: bool,
    punctuation: Seq<char>,
    index_passages: bool,
    index_answers: bool,
) -> Seq<Seq<char>> {
    let p = spec_clean_text(passage, punctuation);
    let q = spec_clean_text(question, punctuation);
    let a = spec_clean_text(answer, punctuation);
    let s0 = if index_passages && p.len() > 0 { seq![p] } else { Seq::empty() };
    let s1 = if q.len() > 0 { s0.push(q) } else { s0 };
    if index_answers && has_answer_fields && a.len() > 0 { s1.push(a) } else { s1 }
}

fn append_part(out: &mut Vec<char>, first: bool, part: &String)
    ensures
        final(out)@ == if first { old(out)@ + part@ } else { old(out)@ + seq![' '] + part@ },
{
    let cs = chars_of(part.as_str());
    append_chars(out, first, &cs);
}

fn append_chars(out: &mut Vec<char>, first: bool, cs: &Vec<char>)
    ensures
        final(out)@ == if first { old(out)@ + cs@ } else { old(out)@ + seq![' '] + cs@ },
{
    if !first {
        out.push(' ');
    }
    let ghost start = out@;
    let mut i: usize = 0;
    while i < cs.len()
        invariant
            i <= cs@.len(),
            out@ == start + cs@.take(i as int),
        decreases cs@.len() - i,
    {
        out.push(cs[i]);
        proof {
            assert(cs@.take(i + 1) =~= cs@.take(i as int).push(cs@[i as int]));
        }
        i = i + 1;
    }
    proof {
        assert(cs@.take(cs@.len() as int) =~= cs@);
        if first {
            assert(out@ =~= old(out)@ + cs@);
        } else {
            assert(out@ =~= old(out)@ + seq![' '] + cs@);
        }
    }
}

/// The cleaned passage, question and answer joined by spaces, as the
/// length filters read them (see `filtering_parts`).
pub fn build_combined_text_for_filtering(
    passage_text: &str,
    question_text: &str,
    answer_text: &str,
    has_answer_fields: bool,
    punctuation_chars: &str,
    index_passages: bool,
    index_answers: bool,
) -> (res: String)
    ensures
        res@ == join_with_spaces(
            filtering_parts(
                passage_text@,
                question_text@,
                answer_text@,
                has_answer_fields,
                punctuation_chars@,
                index_passages,
                index_answers,
            ),
        ),
{
    let cleaned_passage = clean_text(passage_text, punctuation_chars);
    let cleaned_question = clean_text(question_text, punctuation_chars);
    let cleaned_answer = clean_text(answer_text, punctuation_chars);
    let ghost p = cleaned_passage@;
    let ghost q = cleaned_question@;
    let ghost a = cleaned_answer@;
    let ghost s0: Seq<Seq<char>> = if index_passages && p.len() > 0 { seq![p] } else { Seq::empty() };
    let ghost s1: Seq<Seq<char>> = if q.len() > 0 { s0.push(q) } else { s0 };
    let ghost s2: Seq<Seq<char>> = if index_answers && has_answer_fields && a.len() > 0 { s1.push(a) } else { s1 };
    let mut out: Vec<char> = Vec::new();
    let mut first = true;
    if index_passages && !cleaned_passage.as_str().is_empty() {
        append_part(&mut out, first, &cleaned_passage);
        first = false;
    }
    assert(out@ == join_with_spaces(s0) && first == (s0.len() == 0));
    if !cleaned_question.as_str().is_empty() {
        append_part(&mut out, first, &cleaned_question);
        first = false;
        proof {
            if s0.len() > 0 {
                assert(s1.drop_last() =~= s0);
            } else {
                assert(s1 =~= seq![q]);
            }
        }
    }
    assert(out@ == join_with_spaces(s1) && first == (s1.len() == 0));
    if index_answers && has_answer_fields && !cleaned_answer.as_str().is_empty() {
        append_part(&mut out, first, &cleaned_answer);
        proof {
            if s1.len() > 0 {
                assert(s2.drop_last() =~= s1);
            } else {
                assert(s2 =~= seq![a]);
            }
        }
    }
    assert(out@ == join_with_spaces(s2));
    let n = out.len();
    string_from_chars(&out, 0, n)
}

/// The words of a text so far and the word being read, scanning it from the
/// start: a white space character ends the current word.
pub open spec fn word_state(s: Seq<char>) -> (Seq<Seq<char>>, Seq<char>)
    decreases s.len(),
{
    if s.len() == 0 {
        (Seq::empty(), Seq::empty())
    } else {
        let (ws, cur) = word_state(s.drop_last());
        let c = s.last();
        if is_white_space(c) {
            if cur.len() > 0 {
                (ws.push(cur), Seq::empty())
            } else {
                (ws, Seq::empty())
            }
        } else {
            (ws, cur.push(c))
        }
    }
}

/// The words of a text: its maximal runs of characters that are not white
/// space, in order.
pub open spec fn split_words(s: Seq<char>) -> Seq<Seq<char>> {
    let (ws, cur) = word_state(s);
    if cur.len() > 0 {
        ws.push(cur)
    } else {
        ws
    }
}

/// The abstract values of a sequence of character vectors.
pub open spec fn texts_view(v: Seq<Vec<char>>) -> Seq<Seq<char>> {
    v.map_values(|w: Vec<char>| w@)
}

/// The first `max` elements of a sequence, or all of them.
pub open spec fn first_n<A>(s: Seq<A>, max: nat) -> Seq<A> {
    if s.len() <= max {
        s
    } else {
        s.take(max as int)
    }
}

/// The words of a text.
pub fn words_of(text: &str) -> (words: Vec<Vec<char>>)
    ensures
        texts_view(words@) == split_words(text@),
{
    let cs = chars_of(text);
    let mut words: Vec<Vec<char>> = Vec::new();
    let mut cur: Vec<char> = Vec::new();
    let mut i: usize = 0;
    while i < cs.len()
        invariant
            i <= cs@.len(),
            cs@ == text@,
            (texts_view(words@), cur@) == word_state(cs@.take(i as int)),
        decreases cs@.len() - i,
    {
        let c = cs[i];
        proof {
            assert(cs@.take(i + 1).drop_last() =~= cs@.take(i as int));
            assert(cs@.take(i + 1).last() == c);
        }
        if is_white_space_char(c) {
            if cur.len() > 0 {
                let ghost before = words@;
                words.push(cur);
                cur = Vec::new();
                proof {
                    assert(texts_view(words@) =~= texts_view(before).push(words@.last()@));
                }
            } else {
                cur = Vec::new();
                assert(cur@ =~= Seq::<char>::empty());
            }
        } else {
            cur.push(c);
        }
        i = i + 1;
    }
    assert(cs@.take(cs@.len() as int) =~= cs@);
    if cur.len() > 0 {
        let ghost before = words@;
        words.push(cur);
        proof {
            assert(texts_view(words@) =~= texts_view(before).push(words@.last()@));
        }
    }
    words
}

/// The first `max_words` words of a text joined by single spaces: the
/// snippet kept for reports.
pub fn text_snippet(text: &str, max_words: usize) -> (res: String)
    ensures
        res@ == join_with_spaces(first_n(split_words(text@), max_words as nat)),
{
    let words = words_of(text);
    let ghost ws = texts_view(words@);
    let n = if words.len() <= max_words {
        words.len()
    } else {
        max_words
    };
    assert(first_n(ws, max_words as nat) =~= ws.take(n as int));
    let mut out: Vec<char> = Vec::new();
    let mut k: usize = 0;
    assert(ws.take(0) =~= Seq::<Seq<char>>::empty());
    while k < n
        invariant
            k <= n <= words@.len(),
            ws == texts_view(words@),
            out@ == join_with_spaces(ws.take(k as int)),
        decreases n - k,
    {
        append_chars(&mut out, k == 0, &words[k]);
        proof {
            assert(ws[k as int] == words@[k as int]@);
            if k == 0 {
                assert(ws.take(1) =~= seq![ws[0]]);
            } else {
                assert(ws.take(k + 1).drop_last() =~= ws.take(k as int));
            }
        }
        k = k + 1;
    }
    let len = out.len();
    string_from_chars(&out, 0, len)
}

/// Whether a text has fewer than `eval_min_unique_word_count` distinct
/// words; never when the minimum is zero.
pub fn should_skip_by_unique_words(combined_text: &str, eval_min_unique_word_count: usize) -> (skip: bool)
    ensures
        skip == (eval_min_unique_word_count != 0 && split_words(combined_text@).to_set().len()
            < eval_min_unique_word_count),
{
    if eval_min_unique_word_count == 0 {
        return false;
    }
    let mut words = words_of(combined_text);
    let ghost all = texts_view(words@);
    let total = words.len();
    let mut seen_keys = TextKeySet::new();
    let ghost mut seen: Set<Seq<char>> = Set::empty();
    let mut count: usize = 0;
    while words.len() > 0
        invariant
            all.len() >= words@.len(),
            all.len() == total,
            texts_view(words@) == all.take(words@.len() as int),
            seen == all.skip(words@.len() as int).to_set(),
            seen_keys.wf(),
            forall|w: Seq<char>| #[trigger] seen_keys@.contains(seq![w]) <==> seen.contains(w),
            count == seen.len(),
            count <= all.len() - words@.len(),
        decreases words@.len(),
    {
        let ghost before = words@;
        let w = words.pop().unwrap();
        let ghost wv = w@;
        proof {
            let m = before.len() - 1;
            assert(texts_view(words@) =~= all.take(m));
            assert(all[m] == wv) by {
                assert(texts_view(before)[m] == before[m]@);
            }
            assert(all.skip(m) =~= seq![wv] + all.skip(m + 1));
            assert(all.skip(m).to_set() =~= all.skip(m + 1).to_set().insert(wv)) by {
                assert forall|x: Seq<char>| all.skip(m).to_set().contains(x) <==> all.skip(m + 1).to_set().insert(wv).contains(x) by {
                    if all.skip(m).to_set().contains(x) && x != wv {
                        let j = choose|j: int| 0 <= j < all.skip(m).len() && #[trigger] all.skip(m)[j] == x;
                        assert(j > 0);
                        assert(all.skip(m + 1)[j - 1] == x);
                    }
                    if all.skip(m + 1).to_set().contains(x) {
                        let j = choose|j: int| 0 <= j < all.skip(m + 1).len() && #[trigger] all.skip(m + 1)[j] == x;
                        assert(all.skip(m)[j + 1] == x);
                    }
                    if x == wv {
                        assert(all.skip(m)[0] == wv);
                    }
                }
            }
            vstd::seq_lib::seq_to_set_is_finite(all.skip(m + 1));
        }
        let key = vec![w];
        assert(key_view(key) =~= seq![wv]);
        let added = seen_keys.insert(key);
        if added {
            count = count + 1;
        }
        proof {
            let old_seen = seen;
            seen = seen.insert(wv);
            assert forall|x: Seq<char>| #[trigger] seen_keys@.contains(seq![x]) <==> seen.contains(x) by {
                if seq![x] == seq![wv] {
                    assert(seq![x][0] == x);
                }
            }
        }
    }
    proof {
        assert(all.skip(0) =~= all);
    }
    count < eval_min_unique_word_count
}

/// Whether an entry repeats the eval key and fingerprint of an entry seen
/// before; the pair is recorded. Entries without a fingerprint, or with
/// deduplication off (`None`), are never duplicates.
pub fn check_and_mark_duplicate(entry: &ReferenceEntry, dedup: &mut Option<TextKeySet>) -> (dup: bool)
    requires
        *old(dedup) matches Some(s) ==> s.wf(),
    ensures
        match (*old(dedup), entry.fingerprint) {
            (Some(before), Some(fp)) => {
                let key = seq![entry.eval_key@, fp@];
                &&& *final(dedup) matches Some(after) && after.wf() && after@ == before@.insert(key)
                &&& dup == before@.contains(key)
            },
            _ => !dup && *final(dedup) == *old(dedup),
        },
{
    match dedup {
        None => false,
        Some(set) => match &entry.fingerprint {
            None => false,
            Some(fp) => {
                let key = vec![chars_of(entry.eval_key.as_str()), chars_of(fp.as_str())];
                assert(key_view(key) =~= seq![entry.eval_key@, fp@]);
                let added = set.insert(key);
                !added
            },
        },
    }
}

/// What happens to a reference line after it is parsed: skipped by one of
/// the filters, left out for having no question, or indexed.
#[derive(Debug, PartialEq, Eq, Structural)]
pub enum LineDecision {
    /// Too few non-space tokens.
    SkipMinTokens,
    /// Too few distinct words.
    SkipMinUniqueWords,
    /// Its fingerprint was already seen for its eval key.
    SkipDuplicate,
    /// It has no question text.
    NoQuestion,
    /// Its question is indexed, and its answer and passage as the flags say.
    Index { answer: bool, passage: bool },
}

/// Whether an entry is a duplicate of one already seen.
pub open spec fn seen_before(dedup: Option<TextKeySet>, entry: ReferenceEntry) -> bool {
    match (dedup, entry.fingerprint) {
        (Some(before), Some(fp)) => before@.contains(seq![entry.eval_key@, fp@]),
        _ => false,
    }
}

/// How marking an entry changes the set of seen fingerprints.
pub open spec fn marked(before: Option<TextKeySet>, after: Option<TextKeySet>, entry: ReferenceEntry) -> bool {
    match (before, entry.fingerprint) {
        (Some(b), Some(fp)) => after matches Some(a) && a.wf() && a@ == b@.insert(seq![entry.eval_key@, fp@]),
        _ => after == before,
    }
}

/// The decision for a parsed reference line, checks in order: the token
/// count (whose result is given, since counting needs the tokenizer), the
/// distinct words of the filtering text, the fingerprint (which marks the
/// entry as seen), and the question. An indexed line also indexes its
/// answer when answers are indexed and it has a non-empty answer field, and
/// its passage when passages are indexed and it has one.
pub fn decide_reference_line(
    entry: &ReferenceEntry,
    combined_text: &str,
    too_few_tokens: bool,
    eval_min_unique_word_count: usize,
    index_answers: bool,
    index_passages: bool,
    dedup: &mut Option<TextKeySet>,
) -> (d: LineDecision)
    requires
        *old(dedup) matches Some(s) ==> s.wf(),
    ensures
        too_few_tokens ==> d == LineDecision::SkipMinTokens && *final(dedup) == *old(dedup),
        !too_few_tokens && eval_min_unique_word_count != 0 && split_words(combined_text@).to_set().len()
            < eval_min_unique_word_count ==> d == LineDecision::SkipMinUniqueWords && *final(dedup) == *old(dedup),
        !too_few_tokens && !(eval_min_unique_word_count != 0 && split_words(combined_text@).to_set().len()
            < eval_min_unique_word_count) ==> {
            &&& marked(*old(dedup), *final(dedup), *entry)
            &&& d == if seen_before(*old(dedup), *entry) {
                LineDecision::SkipDuplicate
            } else if entry.question_text@.len() == 0 {
                LineDecision::NoQuestion
            } else {
                LineDecision::Index {
                    answer: index_answers && entry.has_answer_fields && entry.answer_text@.len() > 0,
                    passage: index_passages && entry.passage_text@.len() > 0,
                }
            }
        },
{
    if too_few_tokens {
        return LineDecision::SkipMinTokens;
    }
    if should_skip_by_unique_words(combined_text, eval_min_unique_word_count) {
        return LineDecision::SkipMinUniqueWords;
    }
    if check_and_mark_duplicate(entry, dedup) {
        return LineDecision::SkipDuplicate;
    }
    if entry.question_text.as_str().is_empty() {
        return LineDecision::NoQuestion;
    }
    LineDecision::Index {
        answer: index_answers && entry.has_answer_fields && !entry.answer_text.as_str().is_empty(),
        passage: index_passages && !entry.passage_text.as_str().is_empty(),
    }
}

} // verus!
