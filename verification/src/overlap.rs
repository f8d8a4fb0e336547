//! The text of a contamination report: the training text around a match,
//! with the passage, question and answers marked.

use vstd::prelude::*;
use crate::text::{chars_of, string_from_chars};
use crate::tokenizer::{
    bpe_decoded, bpe_token_ids, decode_token_range, encoding_has_token, opt_text, range_ids, OmniTokenizer,
};
use tiktoken_rs::CoreBPE;

verus! {

/// What a piece of the report text shows.
#[derive(Clone, Copy, Debug, PartialEq, Eq, Structural)]
pub enum PieceKind {
    /// Context before the first marked part, opened by `... `.
    Prefix,
    /// The passage, marked `⟨ ⟩`.
    Passage,
    /// Unmarked text between marked parts.
    Gap,
    /// The question, marked `【 】`.
    Question,
    /// An answer, marked `⟦ ⟧`.
    Answer,
    /// Context after the last marked part, closed by ` ...`.
    Suffix,
}

/// A piece of the report text: the tokens from `start` up to, not
/// including, `end`.
#[derive(Clone, Copy, Debug, PartialEq, Eq, Structural)]
pub struct OverlapPiece {
    pub kind: PieceKind,
    pub start: usize,
    pub end: usize,
}

/// The answer pieces from the `i`-th answer range on, each preceded by the
/// gap since the previous marked part, and the last token marked.
pub open spec fn answer_pieces(b: Seq<(usize, usize)>, i: int, last: int) -> (Seq<OverlapPiece>, int)
    decreases b.len() - i,
{
    if i < 0 || i >= b.len() {
        (Seq::empty(), last)
    } else {
        let (s, e) = b[i];
        let gap = if s > last + 1 {
            seq![OverlapPiece { kind: PieceKind::Gap, start: (last + 1) as usize, end: s }]
        } else {
            Seq::empty()
        };
        let (rest, l) = answer_pieces(b, i + 1, e as int);
        (gap + seq![OverlapPiece { kind: PieceKind::Answer, start: s, end: (e + 1) as usize }] + rest, l)
    }
}

/// The first token of the context before the question.
pub open spec fn context_start_of(question_start: usize, context_words_before: usize) -> int {
    if question_start >= context_words_before { question_start - context_words_before } else { 0 }
}

/// The last token of the context after the last answer (or the question).
pub open spec fn context_end_of(len: int, question_end: usize, answers: Option<Seq<(usize, usize)>>, context_words_after: usize) -> int {
    let base_end = match answers {
        Some(b) => if b.len() > 0 { b.last().1 as int } else { question_end as int },
        None => question_end as int,
    };
    if base_end + context_words_after <= len - 1 { base_end + context_words_after } else { len - 1 }
}

/// The pieces before the question: the context before the first marked
/// part, then the passage and the gap after it when the passage ends before
/// the question.
pub open spec fn head_pieces(question_start: usize, passage: Option<(usize, usize)>, context_words_before: usize) -> Seq<OverlapPiece> {
    let context_start = context_start_of(question_start, context_words_before);
    let first_mark = match passage {
        Some((ps, _)) => if ps < question_start { ps as int } else { question_start as int },
        None => question_start as int,
    };
    let prefix = if context_start < first_mark {
        seq![OverlapPiece { kind: PieceKind::Prefix, start: context_start as usize, end: first_mark as usize }]
    } else {
        Seq::empty()
    };
    let passage_pieces = match passage {
        Some((ps, pe)) => if pe < question_start {
            seq![OverlapPiece { kind: PieceKind::Passage, start: ps, end: (pe + 1) as usize }] + if pe + 1 < question_start {
                seq![OverlapPiece { kind: PieceKind::Gap, start: (pe + 1) as usize, end: question_start }]
            } else {
                Seq::empty()
            }
        } else {
            Seq::empty()
        },
        None => Seq::empty(),
    };
    prefix + passage_pieces
}

/// The answer pieces after the question, and the last token marked.
pub open spec fn answer_part(question_end: usize, answers: Option<Seq<(usize, usize)>>) -> (Seq<OverlapPiece>, int) {
    match answers {
        Some(b) => if b.len() > 0 { answer_pieces(b, 0, question_end as int) } else { (Seq::empty(), question_end as int) },
        None => (Seq::empty(), question_end as int),
    }
}

/// The pieces of the report text: context from `context_words_before`
/// tokens before the question (or the passage, if earlier), the passage when
/// it ends before the question, the question, the answers, and context up to
/// `context_words_after` tokens after the last answer (or the question).
pub open spec fn spec_overlap_layout(
    len: int,
    question_start: usize,
    question_end: usize,
    passage: Option<(usize, usize)>,
    answers: Option<Seq<(usize, usize)>>,
    context_words_before: usize,
    context_words_after: usize,
) -> Seq<OverlapPiece> {
    let context_end = context_end_of(len, question_end, answers, context_words_after);
    let question = seq![OverlapPiece { kind: PieceKind::Question, start: question_start, end: (question_end + 1) as usize }];
    let (answer_seq, last) = answer_part(question_end, answers);
    let suffix = if last < context_end {
        seq![OverlapPiece { kind: PieceKind::Suffix, start: (last + 1) as usize, end: (context_end + 1) as usize }]
    } else {
        Seq::empty()
    };
    head_pieces(question_start, passage, context_words_before) + question + answer_seq + suffix
}

/// Whether every piece runs forwards and ends within the tokens.
pub open spec fn pieces_fit(pieces: Seq<OverlapPiece>, len: int) -> bool {
    forall|j: int| 0 <= j < pieces.len() ==> (#[trigger] pieces[j]).start <= pieces[j].end <= len
}

/// A decoded piece with its marks.
pub open spec fn render_piece(kind: PieceKind, text: Seq<char>) -> Seq<char> {
    match kind {
        PieceKind::Prefix => "... "@ + text,
        PieceKind::Passage => seq!['⟨'] + text + seq!['⟩'],
        PieceKind::Gap => text,
        PieceKind::Question => seq!['【'] + text + seq!['】'],
        PieceKind::Answer => seq!['⟦'] + text + seq!['⟧'],
        PieceKind::Suffix => seq![' '] + text + " ..."@,
    }
}

/// The report text of the first `k` pieces, skipping those that did not
/// decode.
pub open spec fn render_pieces(pieces: Seq<OverlapPiece>, texts: Seq<Option<Seq<char>>>, k: int) -> Seq<char>
    decreases k,
{
    if k <= 0 {
        Seq::empty()
    } else {
        render_pieces(pieces, texts, k - 1) + match texts[k - 1] {
            Some(t) => render_piece(pieces[k - 1].kind, t),
            None => Seq::empty(),
        }
    }
}

/// The report text of all pieces, or `None` when it is empty.
pub open spec fn spec_render_overlap(pieces: Seq<OverlapPiece>, texts: Seq<Option<Seq<char>>>) -> Option<Seq<char>> {
    let r = render_pieces(pieces, texts, pieces.len() as int);
    if r.len() > 0 {
        Some(r)
    } else {
        None
    }
}

/// The ranges of an optional vector of ranges.
pub open spec fn opt_ranges(b: Option<Vec<(usize, usize)>>) -> Option<Seq<(usize, usize)>> {
    match b {
        Some(v) => Some(v@),
        None => None,
    }
}

/// The decoding of each piece's tokens under a BPE encoding.
pub open spec fn piece_texts(bpe: CoreBPE, tokens: Seq<usize>, pieces: Seq<OverlapPiece>) -> Seq<Option<Seq<char>>> {
    Seq::new(
        pieces.len(),
        |k: int| bpe_decoded(bpe, range_ids(tokens, pieces[k].start as int, pieces[k].end as int)),
    )
}

/// Whether answer ranges lie within the tokens, each with its start at most
/// one past its end.
pub open spec fn ranges_fit(b: Seq<(usize, usize)>, len: int) -> bool {
    forall|k: int| 0 <= k < b.len() ==> (#[trigger] b[k]).0 <= b[k].1 + 1 && b[k].1 < len
}

fn push_head(pieces: &mut Vec<OverlapPiece>, question_start: usize, passage_boundaries: Option<(usize, usize)>, context_words_before: usize, len: usize)
    requires
        question_start <= len,
        passage_boundaries matches Some((ps, pe)) ==> ps <= pe + 1 && pe < len,
        pieces_fit(old(pieces)@, len as int),
    ensures
        final(pieces)@ == old(pieces)@ + head_pieces(question_start, passage_boundaries, context_words_before),
        pieces_fit(final(pieces)@, len as int),
{
    let ghost before = pieces@;
    let context_start = question_start.saturating_sub(context_words_before);
    let first_mark = match passage_boundaries {
        Some((ps, _)) => if ps < question_start {
            ps
        } else {
            question_start
        },
        None => question_start,
    };
    if context_start < first_mark {
        pieces.push(OverlapPiece { kind: PieceKind::Prefix, start: context_start, end: first_mark });
    }
    if let Some((ps, pe)) = passage_boundaries {
        if pe < question_start {
            pieces.push(OverlapPiece { kind: PieceKind::Passage, start: ps, end: pe + 1 });
            if pe + 1 < question_start {
                pieces.push(OverlapPiece { kind: PieceKind::Gap, start: pe + 1, end: question_start });
            }
        }
    }
    assert(pieces@ =~= before + head_pieces(question_start, passage_boundaries, context_words_before));
}

fn push_answers(pieces: &mut Vec<OverlapPiece>, b: &Vec<(usize, usize)>, question_end: usize, len: usize) -> (last: usize)
    requires
        b@.len() > 0,
        ranges_fit(b@, len as int),
        question_end < len,
        pieces_fit(old(pieces)@, len as int),
    ensures
        final(pieces)@ == old(pieces)@ + answer_pieces(b@, 0, question_end as int).0,
        last == answer_pieces(b@, 0, question_end as int).1,
        last < len,
        pieces_fit(final(pieces)@, len as int),
{
    let ghost p0 = pieces@;
    let mut last = question_end;
    let mut i: usize = 0;
    while i < b.len()
        invariant
            i <= b@.len(),
            ranges_fit(b@, len as int),
            last < len,
            pieces_fit(pieces@, len as int),
            pieces@ + answer_pieces(b@, i as int, last as int).0 == p0 + answer_pieces(b@, 0, question_end as int).0,
            answer_pieces(b@, i as int, last as int).1 == answer_pieces(b@, 0, question_end as int).1,
        decreases b@.len() - i,
    {
        let (s, e) = b[i];
        let ghost before = pieces@;
        let ghost gap: Seq<OverlapPiece> = if s > last + 1 {
            seq![OverlapPiece { kind: PieceKind::Gap, start: (last + 1) as usize, end: s }]
        } else {
            Seq::empty()
        };
        proof {
            assert(b@[i as int] == (s, e));
        }
        if s > last + 1 {
            pieces.push(OverlapPiece { kind: PieceKind::Gap, start: last + 1, end: s });
        }
        pieces.push(OverlapPiece { kind: PieceKind::Answer, start: s, end: e + 1 });
        proof {
            let ans = seq![OverlapPiece { kind: PieceKind::Answer, start: s, end: (e + 1) as usize }];
            let rest2 = answer_pieces(b@, i + 1, e as int).0;
            assert(answer_pieces(b@, i as int, last as int).0 == gap + ans + rest2);
            assert(pieces@ =~= before + gap + ans);
            assert(pieces@ + rest2 =~= before + (gap + ans + rest2));
        }
        last = e;
        i = i + 1;
    }
    last
}

/// The pieces of the report text of a match (see `spec_overlap_layout`);
/// each runs forwards and ends within the tokens.
pub fn overlap_layout(
    len: usize,
    question_start: usize,
    question_end: usize,
    passage_boundaries: Option<(usize, usize)>,
    answer_boundaries: &Option<Vec<(usize, usize)>>,
    context_words_before: usize,
    context_words_after: usize,
) -> (pieces: Vec<OverlapPiece>)
    requires
        question_start <= question_end + 1,
        question_end < len,
        passage_boundaries matches Some((ps, pe)) ==> ps <= pe + 1 && pe < len,
        answer_boundaries matches Some(b) ==> ranges_fit(b@, len as int),
        answer_boundaries matches Some(b) ==> (b@.len() > 0 ==> b@.last().1 + context_words_after <= usize::MAX),
        question_end + context_words_after <= usize::MAX,
    ensures
        pieces@ == spec_overlap_layout(
            len as int,
            question_start,
            question_end,
            passage_boundaries,
            opt_ranges(*answer_boundaries),
            context_words_before,
            context_words_after,
        ),
        pieces_fit(pieces@, len as int),
{
    let base_end = match answer_boundaries {
        Some(b) => if b.len() > 0 {
            b[b.len() - 1].1
        } else {
            question_end
        },
        None => question_end,
    };
    let context_end = if base_end + context_words_after <= len - 1 {
        base_end + context_words_after
    } else {
        len - 1
    };
    assert(context_end == context_end_of(len as int, question_end, opt_ranges(*answer_boundaries), context_words_after));
    let mut pieces: Vec<OverlapPiece> = Vec::new();
    push_head(&mut pieces, question_start, passage_boundaries, context_words_before, len);
    pieces.push(OverlapPiece { kind: PieceKind::Question, start: question_start, end: question_end + 1 });
    let ghost p2 = pieces@;
    let last = match answer_boundaries {
        Some(b) => if b.len() > 0 {
            push_answers(&mut pieces, b, question_end, len)
        } else {
            question_end
        },
        None => question_end,
    };
    proof {
        let (answer_seq, l) = answer_part(question_end, opt_ranges(*answer_boundaries));
        assert(pieces@ =~= p2 + answer_seq);
        assert(last == l);
    }
    let ghost p3 = pieces@;
    if last < context_end {
        pieces.push(OverlapPiece { kind: PieceKind::Suffix, start: last + 1, end: context_end + 1 });
    }
    assert(pieces@ =~= spec_overlap_layout(
        len as int,
        question_start,
        question_end,
        passage_boundaries,
        opt_ranges(*answer_boundaries),
        context_words_before,
        context_words_after,
    ));
    pieces
}

fn push_text(out: &mut Vec<char>, s: &str)
    ensures
        final(out)@ == old(out)@ + s@,
{
    let cs = chars_of(s);
    let ghost start = out@;
    let mut i: usize = 0;
    while i < cs.len()
        invariant
            i <= cs@.len(),
            out@ == start + cs@.take(i as int),
        decreases cs@.len() - i,
    {
        out.push(cs[i]);
        proof {
            assert(cs@.take(i + 1) =~= cs@.take(i as int).push(cs@[i as int]));
        }
        i = i + 1;
    }
    assert(cs@.take(cs@.len() as int) =~= cs@);
}

/// The report text of decoded pieces, or `None` when it is empty; a piece
/// that did not decode is left out with its marks.
pub fn render_overlap(pieces: &Vec<OverlapPiece>, texts: &Vec<Option<String>>) -> (res: Option<String>)
    requires
        pieces@.len() == texts@.len(),
    ensures
        res matches Some(s) ==> spec_render_overlap(pieces@, texts@.map_values(|t: Option<String>| match t {
            Some(s) => Some(s@),
            None => None,
        })) == Some(s@),
        res is None ==> spec_render_overlap(pieces@, texts@.map_values(|t: Option<String>| match t {
            Some(s) => Some(s@),
            None => None,
        })) is None,
{
    let ghost tv = texts@.map_values(|t: Option<String>| match t {
        Some(s) => Some(s@),
        None => None,
    });
    let mut out: Vec<char> = Vec::new();
    let mut k: usize = 0;
    while k < pieces.len()
        invariant
            k <= pieces@.len(),
            pieces@.len() == texts@.len(),
            tv == texts@.map_values(|t: Option<String>| match t {
                Some(s) => Some(s@),
                None => None,
            }),
            out@ == render_pieces(pieces@, tv, k as int),
        decreases pieces@.len() - k,
    {
        let ghost before = out@;
        match &texts[k] {
            Some(t) => {
                let kind = pieces[k].kind;
                match kind {
                    PieceKind::Prefix => {
                        push_text(&mut out, "... ");
                        push_text(&mut out, t.as_str());
                    },
                    PieceKind::Passage => {
                        out.push('⟨');
                        push_text(&mut out, t.as_str());
                        out.push('⟩');
                    },
                    PieceKind::Gap => {
                        push_text(&mut out, t.as_str());
                    },
                    PieceKind::Question => {
                        out.push('【');
                        push_text(&mut out, t.as_str());
                        out.push('】');
                    },
                    PieceKind::Answer => {
                        out.push('⟦');
                        push_text(&mut out, t.as_str());
                        out.push('⟧');
                    },
                    PieceKind::Suffix => {
                        out.push(' ');
                        push_text(&mut out, t.as_str());
                        push_text(&mut out, " ...");
                    },
                }
                proof {
                    assert(tv[k as int] == Some(t@));
                    assert(out@ =~= before + render_piece(kind, t@));
                }
            },
            None => {
                proof {
                    assert(tv[k as int] is None);
                }
            },
        }
        k = k + 1;
    }
    if out.len() > 0 {
        let n = out.len();
        Some(string_from_chars(&out, 0, n))
    } else {
        None
    }
}

/// The report text of a match under the tokenizer's BPE encoding: the
/// pieces of `spec_overlap_layout`, each decoded and marked; `None` for a
/// tokenizer without a BPE encoding, or when the text is empty.
pub fn extract_overlap_with_question_and_answer(
    tokenizer: &OmniTokenizer,
    tokens: &[usize],
    question_start: usize,
    question_end: usize,
    passage_boundaries: Option<(usize, usize)>,
    answer_boundaries: &Option<Vec<(usize, usize)>>,
    context_words_before: usize,
    context_words_after: usize,
) -> (res: Option<String>)
    requires
        question_start <= question_end + 1,
        question_end < tokens@.len(),
        passage_boundaries matches Some((ps, pe)) ==> ps <= pe + 1 && pe < tokens@.len(),
        answer_boundaries matches Some(b) ==> ranges_fit(b@, tokens@.len() as int),
        answer_boundaries matches Some(b) ==> (b@.len() > 0 ==> b@.last().1 + context_words_after <= usize::MAX),
        question_end + context_words_after <= usize::MAX,
        tokenizer.wf(),
        tokenizer.holds_tokens(tokens@),
    ensures
        tokenizer.inner is None ==> res is None,
        tokenizer.inner matches Some(b) ==> opt_text(res) == spec_render_overlap(
            spec_overlap_layout(
                tokens@.len() as int,
                question_start,
                question_end,
                passage_boundaries,
                opt_ranges(*answer_boundaries),
                context_words_before,
                context_words_after,
            ),
            piece_texts(
                b,
                tokens@,
                spec_overlap_layout(
                    tokens@.len() as int,
                    question_start,
                    question_end,
                    passage_boundaries,
                    opt_ranges(*answer_boundaries),
                    context_words_before,
                    context_words_after,
                ),
            ),
        ),
{
    let bpe = match &tokenizer.inner {
        Some(b) => b,
        None => {
            return None;
        },
    };
    let pieces = overlap_layout(
        tokens.len(),
        question_start,
        question_end,
        passage_boundaries,
        answer_boundaries,
        context_words_before,
        context_words_after,
    );
    let ghost want = piece_texts(*bpe, tokens@, pieces@);
    let mut texts: Vec<Option<String>> = Vec::new();
    let mut k: usize = 0;
    while k < pieces.len()
        invariant
            k <= pieces@.len(),
            texts@.len() == k,
            pieces_fit(pieces@, tokens@.len() as int),
            want == piece_texts(*bpe, tokens@, pieces@),
            tokenizer.wf(),
            tokenizer.holds_tokens(tokens@),
            tokenizer.inner == Some(*bpe),
            forall|j: int| 0 <= j < k ==> opt_text(#[trigger] texts@[j]) == want[j],
        decreases pieces@.len() - k,
    {
        let p = pieces[k];
        assert(pieces@[k as int] == p);
        assert forall|i: int| p.start <= i < p.end implies bpe_token_ids(*bpe).contains(
            #[trigger] tokens@[i] as u32 as usize,
        ) by {
            assert(bpe_token_ids(*bpe).contains(tokens@[i]));
            assert(encoding_has_token(tokenizer.tokenizer_name@, tokens@[i]));
        }
        texts.push(decode_token_range(bpe, tokens, p.start, p.end));
        k = k + 1;
    }
    let res = render_overlap(&pieces, &texts);
    proof {
        let tv = texts@.map_values(|t: Option<String>| match t {
            Some(s) => Some(s@),
            None => None,
        });
        assert(tv =~= want);
        assert(spec_render_overlap(pieces@, tv) == opt_text(res));
    }
    res
}

} // verus!
