//! Statistics of a directory of evaluation files: per evaluation, the
//! lengths of its questions, answers and passages.

use vstd::prelude::*;
use crate::keyset::{key_view, same_key};
use crate::text::{chars_of, is_white_space, is_white_space_char};
use crate::json::{json_parse, parse_json, str_field, str_member, JsonValue};
use vstd::string::StringSliceAdditionalSpecFns;
use vstd::utf8::encode_utf8;

verus! {

/// What one evaluation line contributes: its eval key, and the length of
/// each of its question, answer and passage that is a non-blank text.
pub struct EvalRecord {
    pub eval_key: Option<String>,
    pub question_len: Option<usize>,
    pub answer_len: Option<usize>,
    pub passage_len: Option<usize>,
}

/// The lengths gathered for one evaluation.
pub struct EvalStatsRow {
    pub eval_key: String,
    pub question_lengths: Vec<usize>,
    pub answer_lengths: Vec<usize>,
    pub passage_lengths: Vec<usize>,
}

/// The rows of all evaluations, and how many lines had no usable key.
pub struct EvalStatsSummary {
    pub rows: Vec<EvalStatsRow>,
    pub skipped_records: usize,
}

/// Whether a text is empty or all white space.
pub open spec fn blank(s: Seq<char>) -> bool {
    forall|i: int| 0 <= i < s.len() ==> is_white_space(#[trigger] s[i])
}

/// The evaluation a line belongs to: its key, unless missing or blank.
pub open spec fn record_key(r: EvalRecord) -> Option<Seq<char>> {
    match r.eval_key {
        Some(k) => if blank(k@) { None } else { Some(k@) },
        None => None,
    }
}

/// Field `f` of a line: question (0), answer (1) or passage length.
pub open spec fn field_len(r: EvalRecord, f: int) -> Option<usize> {
    if f == 0 {
        r.question_len
    } else if f == 1 {
        r.answer_len
    } else {
        r.passage_len
    }
}

/// The lengths of field `f` over the lines of evaluation `g`, in order.
pub open spec fn lengths_for(s: Seq<EvalRecord>, g: Seq<char>, f: int) -> Seq<usize>
    decreases s.len(),
{
    if s.len() == 0 {
        Seq::empty()
    } else {
        let rest = lengths_for(s.drop_last(), g, f);
        if record_key(s.last()) == Some(g) {
            match field_len(s.last(), f) {
                Some(l) => rest.push(l),
                None => rest,
            }
        } else {
            rest
        }
    }
}

/// The number of lines without a usable key.
pub open spec fn skipped_count(s: Seq<EvalRecord>) -> nat
    decreases s.len(),
{
    if s.len() == 0 {
        0
    } else {
        skipped_count(s.drop_last()) + if record_key(s.last()) is None { 1nat } else { 0nat }
    }
}

/// Whether some line belongs to evaluation `g`.
pub open spec fn has_key(s: Seq<EvalRecord>, g: Seq<char>) -> bool {
    exists|j: int| 0 <= j < s.len() && record_key(#[trigger] s[j]) == Some(g)
}

/// `rows` has one row per evaluation of `s`, holding its lengths.
pub open spec fn rows_match(rows: Seq<EvalStatsRow>, s: Seq<EvalRecord>) -> bool {
    &&& forall|a: int, b: int| 0 <= a < b < rows.len() ==> (#[trigger] rows[a]).eval_key@ != (#[trigger] rows[b]).eval_key@
    &&& forall|a: int| 0 <= a < rows.len() ==> has_key(s, (#[trigger] rows[a]).eval_key@)
    &&& forall|a: int|
        0 <= a < rows.len() ==> (#[trigger] rows[a]).question_lengths@ == lengths_for(s, rows[a].eval_key@, 0)
            && rows[a].answer_lengths@ == lengths_for(s, rows[a].eval_key@, 1) && rows[a].passage_lengths@
            == lengths_for(s, rows[a].eval_key@, 2)
    &&& forall|g: Seq<char>| #[trigger] has_key(s, g) ==> exists|a: int| 0 <= a < rows.len() && (#[trigger] rows[a]).eval_key@ == g
}

proof fn lemma_lengths_absent(s: Seq<EvalRecord>, g: Seq<char>, f: int)
    requires
        !has_key(s, g),
    ensures
        lengths_for(s, g, f) == Seq::<usize>::empty(),
    decreases s.len(),
{
    if s.len() > 0 {
        assert(!has_key(s.drop_last(), g)) by {
            if has_key(s.drop_last(), g) {
                let j = choose|j: int| 0 <= j < s.drop_last().len() && record_key(#[trigger] s.drop_last()[j]) == Some(g);
                assert(s[j] == s.drop_last()[j]);
            }
        }
        lemma_lengths_absent(s.drop_last(), g, f);
        assert(s.last() == s[s.len() - 1]);
    }
}

/// Whether a text is empty or all white space.
fn is_blank(s: &str) -> (res: bool)
    ensures
        res == blank(s@),
{
    let v = chars_of(s);
    let mut i: usize = 0;
    while i < v.len()
        invariant
            i <= v@.len(),
            v@ == s@,
            forall|j: int| 0 <= j < i ==> is_white_space(#[trigger] s@[j]),
        decreases v@.len() - i,
    {
        if !is_white_space_char(v[i]) {
            return false;
        }
        i = i + 1;
    }
    true
}

/// The length in UTF-8 bytes of a text that is there and not blank.
pub open spec fn nonblank_len(t: Option<Seq<char>>) -> Option<usize> {
    match t {
        Some(s) => if blank(s) { None } else { Some(encode_utf8(s).len() as usize) },
        None => None,
    }
}

/// Whether a record is what an evaluation line's JSON value contributes:
/// its `eval_key` string, and the byte length of each non-blank string
/// among `question`, `answer` and `passage`.
pub open spec fn record_of(r: EvalRecord, v: JsonValue) -> bool {
    &&& match r.eval_key {
        Some(k) => str_field(v, "eval_key"@) == Some(k@),
        None => str_field(v, "eval_key"@) is None,
    }
    &&& r.question_len == nonblank_len(str_field(v, "question"@))
    &&& r.answer_len == nonblank_len(str_field(v, "answer"@))
    &&& r.passage_len == nonblank_len(str_field(v, "passage"@))
}

fn length_of_member(v: &JsonValue, key: &str) -> (r: Option<usize>)
    ensures
        r == nonblank_len(str_field(*v, key@)),
{
    match str_member(v, key) {
        Some(t) => if is_blank(t.as_str()) {
            None
        } else {
            let n = t.as_str().as_bytes().len();
            Some(n)
        },
        None => None,
    }
}

/// What an evaluation line's JSON value contributes to the statistics.
pub fn eval_record_of(v: &JsonValue) -> (r: EvalRecord)
    ensures
        record_of(r, *v),
{
    EvalRecord {
        eval_key: str_member(v, "eval_key"),
        question_len: length_of_member(v, "question"),
        answer_len: length_of_member(v, "answer"),
        passage_len: length_of_member(v, "passage"),
    }
}

/// What an evaluation line contributes; `None` exactly when the line is
/// not JSON.
pub fn eval_record_of_line(line: &str) -> (r: Option<EvalRecord>)
    ensures
        r is None <==> json_parse(line@) is None,
        r matches Some(rec) ==> record_of(rec, json_parse(line@)->0),
{
    match parse_json(line) {
        Some(v) => Some(eval_record_of(&v)),
        None => None,
    }
}

fn push_opt(v: &mut Vec<usize>, o: Option<usize>)
    ensures
        final(v)@ == match o {
            Some(l) => old(v)@.push(l),
            None => old(v)@,
        },
{
    if let Some(l) = o {
        v.push(l);
    }
}

fn opt_seq(o: Option<usize>) -> (v: Vec<usize>)
    ensures
        v@ == match o {
            Some(l) => seq![l],
            None => Seq::<usize>::empty(),
        },
{
    let mut v = Vec::new();
    push_opt(&mut v, o);
    v
}

proof fn lemma_lengths_step(s: Seq<EvalRecord>, i: int, g: Seq<char>, f: int)
    requires
        0 <= i < s.len(),
    ensures
        lengths_for(s.take(i + 1), g, f) == if record_key(s[i]) == Some(g) {
            match field_len(s[i], f) {
                Some(l) => lengths_for(s.take(i), g, f).push(l),
                None => lengths_for(s.take(i), g, f),
            }
        } else {
            lengths_for(s.take(i), g, f)
        },
{
    assert(s.take(i + 1).drop_last() =~= s.take(i));
    assert(s.take(i + 1).last() == s[i]);
}

/// Gathers, per evaluation key, the lengths of the questions, answers and
/// passages of its lines, and counts the lines without a key.
pub fn collect_eval_stats(records: &Vec<EvalRecord>) -> (res: EvalStatsSummary)
    ensures
        rows_match(res.rows@, records@),
        res.skipped_records == skipped_count(records@),
{
    let mut rows: Vec<EvalStatsRow> = Vec::new();
    let mut skipped: usize = 0;
    let mut i: usize = 0;
    while i < records.len()
        invariant
            i <= records@.len(),
            rows_match(rows@, records@.take(i as int)),
            skipped as nat == skipped_count(records@.take(i as int)),
            skipped <= i,
        decreases records@.len() - i,
    {
        let r = &records[i];
        let ghost s = records@;
        let ghost before = s.take(i as int);
        let ghost after = s.take(i + 1);
        proof {
            assert(after.drop_last() =~= before);
            assert(after.last() == s[i as int]);
            assert forall|h: Seq<char>, f: int| #[trigger] lengths_for(after, h, f) == (if record_key(s[i as int]) == Some(h) {
                match field_len(s[i as int], f) {
                    Some(l) => lengths_for(before, h, f).push(l),
                    None => lengths_for(before, h, f),
                }
            } else {
                lengths_for(before, h, f)
            }) by {
                lemma_lengths_step(s, i as int, h, f);
            }
            assert forall|h: Seq<char>| #[trigger] has_key(after, h) <==> (has_key(before, h) || record_key(s[i as int]) == Some(h)) by {
                if has_key(before, h) {
                    let j = choose|j: int| 0 <= j < before.len() && record_key(#[trigger] before[j]) == Some(h);
                    assert(after[j] == before[j]);
                }
                if record_key(s[i as int]) == Some(h) {
                    assert(after[i as int] == s[i as int]);
                }
                if has_key(after, h) {
                    let j = choose|j: int| 0 <= j < after.len() && record_key(#[trigger] after[j]) == Some(h);
                    if j < i {
                        assert(after[j] == before[j]);
                    }
                }
            }
        }
        let key_text = match &r.eval_key {
            Some(k) => if is_blank(k.as_str()) { None } else { Some(k) },
            None => None,
        };
        match key_text {
            None => {
                skipped = skipped + 1;
                proof {
                    assert(rows_match(rows@, after));
                }
            },
            Some(k) => {
                let key = vec![chars_of(k.as_str())];
                let ghost g = k@;
                let mut a: usize = 0;
                let mut found = false;
                while a < rows.len()
                    invariant_except_break
                        !found,
                        forall|b: int| 0 <= b < a ==> (#[trigger] rows@[b]).eval_key@ != g,
                    invariant
                        a <= rows@.len(),
                        key@.len() == 1,
                        key@[0]@ == g,
                    ensures
                        found ==> a < rows@.len() && rows@[a as int].eval_key@ == g,
                        !found ==> forall|b: int| 0 <= b < rows@.len() ==> (#[trigger] rows@[b]).eval_key@ != g,
                    decreases rows@.len() - a,
                {
                    let other = vec![chars_of(rows[a].eval_key.as_str())];
                    if same_key(&other, &key) {
                        assert(key_view(other)[0] == key_view(key)[0]);
                        found = true;
                        break;
                    }
                    proof {
                        if rows@[a as int].eval_key@ == g {
                            assert(key_view(other) =~= key_view(key));
                        }
                    }
                    a = a + 1;
                }
                let ghost old_rows = rows@;
                if found {
                    let mut row = EvalStatsRow {
                        eval_key: String::new(),
                        question_lengths: Vec::new(),
                        answer_lengths: Vec::new(),
                        passage_lengths: Vec::new(),
                    };
                    rows.set_and_swap(a, &mut row);
                    push_opt(&mut row.question_lengths, r.question_len);
                    push_opt(&mut row.answer_lengths, r.answer_len);
                    push_opt(&mut row.passage_lengths, r.passage_len);
                    rows.set_and_swap(a, &mut row);
                    proof {
                        assert(rows@ =~= old_rows.update(a as int, rows@[a as int]));
                        assert forall|b: int| 0 <= b < rows@.len() && b != a implies #[trigger] rows@[b] == old_rows[b] by {}
                        assert(rows_match(rows@, after)) by {
                            assert forall|b: int| 0 <= b < rows@.len() implies has_key(after, (#[trigger] rows@[b]).eval_key@) by {
                                assert(has_key(before, old_rows[b].eval_key@));
                            }
                            assert forall|h: Seq<char>| #[trigger] has_key(after, h) implies exists|b: int|
                                0 <= b < rows@.len() && (#[trigger] rows@[b]).eval_key@ == h by {
                                if h == g {
                                    assert(rows@[a as int].eval_key@ == h);
                                } else {
                                    assert(has_key(before, h));
                                    let b = choose|b: int| 0 <= b < old_rows.len() && (#[trigger] old_rows[b]).eval_key@ == h;
                                    assert(rows@[b] == old_rows[b]);
                                }
                            }
                        }
                    }
                } else {
                    proof {
                        assert(!has_key(before, g)) by {
                            if has_key(before, g) {
                                let b = choose|b: int| 0 <= b < old_rows.len() && (#[trigger] old_rows[b]).eval_key@ == g;
                            }
                        }
                        lemma_lengths_absent(before, g, 0);
                        lemma_lengths_absent(before, g, 1);
                        lemma_lengths_absent(before, g, 2);
                    }
                    rows.push(EvalStatsRow {
                        eval_key: k.clone(),
                        question_lengths: opt_seq(r.question_len),
                        answer_lengths: opt_seq(r.answer_len),
                        passage_lengths: opt_seq(r.passage_len),
                    });
                    proof {
                        assert(rows_match(rows@, after)) by {
                            assert forall|b: int| 0 <= b < rows@.len() - 1 implies #[trigger] rows@[b] == old_rows[b] by {}
                            assert forall|b: int| 0 <= b < rows@.len() implies has_key(after, (#[trigger] rows@[b]).eval_key@) by {
                                if b < old_rows.len() {
                                    assert(has_key(before, old_rows[b].eval_key@));
                                }
                            }
                            assert forall|h: Seq<char>| #[trigger] has_key(after, h) implies exists|b: int|
                                0 <= b < rows@.len() && (#[trigger] rows@[b]).eval_key@ == h by {
                                if h == g {
                                    assert(rows@[rows@.len() - 1].eval_key@ == h);
                                } else {
                                    assert(has_key(before, h));
                                    let b = choose|b: int| 0 <= b < old_rows.len() && (#[trigger] old_rows[b]).eval_key@ == h;
                                    assert(rows@[b] == old_rows[b]);
                                }
                            }
                        }
                    }
                }
            },
        }
        i = i + 1;
    }
    assert(records@.take(records@.len() as int) =~= records@);
    EvalStatsSummary { rows, skipped_records: skipped }
}

} // verus!
