//! Sampling of a training document for contamination clusters.

use std::collections::{HashMap, HashSet};
use vstd::prelude::*;
use crate::cluster::{expand_simple_contamination_cluster, spec_expand, ClusterModel, ExpansionContext, SimpleContaminationCluster};
use crate::ngram::{hash_ngram, spec_hash_ngram};
use crate::sets::{set_elements, set_from_vec};
use crate::stats::ThreadLocalStats;

verus! {

/// The question n-gram index that detection reads: n-gram hash to id, id to
/// the evaluation documents that contain it, and the real documents of the
/// hot n-grams whose entry holds only the sentinel id.
pub struct QuestionIndex {
    pub question_ngram_to_id: HashMap<u64, u32>,
    pub question_ngram_id_to_eval_doc_ids: HashMap<u32, HashSet<u32>>,
    pub hot_bucket_id: u32,
    pub question_ngram_id_to_hot_bucket_doc_ids: HashMap<u32, HashSet<u32>>,
}

/// The detection settings that cluster sampling reads.
pub struct DetectionParams {
    pub ngram_size: usize,
    pub sample_every_m_tokens: usize,
    pub question_max_consecutive_misses: usize,
}

/// The expansion context that detection builds from the index and settings.
pub open spec fn spec_context<'a>(index: &'a QuestionIndex, config: &DetectionParams) -> ExpansionContext<'a> {
    ExpansionContext {
        question_ngram_to_id: &index.question_ngram_to_id,
        question_ngram_id_to_eval_doc_ids: &index.question_ngram_id_to_eval_doc_ids,
        ngram_size: config.ngram_size,
        question_max_consecutive_misses: config.question_max_consecutive_misses as u32,
        hot_bucket_id: index.hot_bucket_id,
        question_ngram_id_to_hot_bucket_doc_ids: &index.question_ngram_id_to_hot_bucket_doc_ids,
    }
}

/// The documents that the index lists for an n-gram hash, if it knows it.
pub open spec fn spec_docs_for(ctx: &ExpansionContext, hash: u64) -> Option<Set<u32>> {
    let ids = ctx.question_ngram_to_id@;
    let docs = ctx.question_ngram_id_to_eval_doc_ids@;
    if ids.contains_key(hash) && docs.contains_key(ids[hash]) {
        Some(docs[ids[hash]]@)
    } else {
        None
    }
}

/// The clusters found by sampling from n-gram position `i` on: a miss moves
/// on by the sampling interval, a hot n-gram by one, and a hit is expanded
/// and sampling resumes after the end of its cluster.
pub open spec fn clusters_from(ctx: &ExpansionContext, tokens: Seq<usize>, sample: usize, i: int) -> Seq<ClusterModel>
    decreases (if i < tokens.len() - ctx.ngram_size + 1 { tokens.len() - ctx.ngram_size + 1 - i } else { 0 }),
{
    let total = tokens.len() - ctx.ngram_size + 1;
    if i < 0 || i >= total || sample == 0 {
        Seq::empty()
    } else {
        let h = spec_hash_ngram(tokens.subrange(i, i + ctx.ngram_size));
        match spec_docs_for(ctx, h) {
            None => clusters_from(ctx, tokens, sample, i + sample),
            Some(docs) => if docs.len() == 1 && docs.contains(ctx.hot_bucket_id) {
                clusters_from(ctx, tokens, sample, i + 1)
            } else {
                let c = spec_expand(ctx, tokens, i as usize, docs, h);
                let next = if c.end_idx + 1 > i { c.end_idx + 1 } else { i + 1 };
                seq![c] + clusters_from(ctx, tokens, sample, next)
            },
        }
    }
}

/// The abstract values of a sequence of clusters.
pub open spec fn cluster_views(v: Seq<SimpleContaminationCluster>) -> Seq<ClusterModel> {
    v.map_values(|c: SimpleContaminationCluster| c@)
}

/// Looks up the n-gram at `ngram_idx` and lists its documents.
fn check_ngram_for_match(
    ngram_idx: usize,
    training_tokens: &[usize],
    config: &DetectionParams,
    question_ngram_to_id: &HashMap<u64, u32>,
    question_ngram_id_to_eval_doc_ids: &HashMap<u32, HashSet<u32>>,
) -> (res: Option<HashSet<u32>>)
    requires
        ngram_idx + config.ngram_size <= training_tokens@.len(),
    ensures
        ({
            let h = spec_hash_ngram(training_tokens@.subrange(ngram_idx as int, ngram_idx + config.ngram_size));
            let ids = question_ngram_to_id@;
            let docs = question_ngram_id_to_eval_doc_ids@;
            match res {
                Some(s) => ids.contains_key(h) && docs.contains_key(ids[h]) && s@ == docs[ids[h]]@,
                None => !(ids.contains_key(h) && docs.contains_key(ids[h])),
            }
        }),
{
    let _len = training_tokens.len();
    let ngram_tokens = &training_tokens[ngram_idx..ngram_idx + config.ngram_size];
    assert(ngram_tokens@ == training_tokens@.subrange(ngram_idx as int, ngram_idx + config.ngram_size));
    let ngram_hash = hash_ngram(ngram_tokens);
    if let Some(ngram_id) = question_ngram_to_id.get(&ngram_hash) {
        if let Some(doc_ids) = question_ngram_id_to_eval_doc_ids.get(ngram_id) {
            let v = set_elements(doc_ids);
            return Some(set_from_vec(&v));
        }
    }
    None
}


/// Samples the training tokens for n-grams of evaluation questions and
/// expands every hit into a cluster. A miss moves on by the sampling
/// interval; a hot n-gram (only the sentinel document) by one position; after
/// a cluster, sampling resumes just after its end.
pub fn identify_contamination_clusters(
    training_tokens: &[usize],
    config: &DetectionParams,
    index: &QuestionIndex,
    stats: &mut ThreadLocalStats,
) -> (clusters: Vec<SimpleContaminationCluster>)
    requires
        config.sample_every_m_tokens >= 1,
        training_tokens@.len() + config.sample_every_m_tokens < usize::MAX,
    ensures
        cluster_views(clusters@) == clusters_from(&spec_context(index, config), training_tokens@, config.sample_every_m_tokens, 0),
        training_tokens@.len() < config.ngram_size ==> clusters@.len() == 0,
        forall|k: int| 0 <= k < clusters@.len() ==>
            #[trigger] clusters@[k]@.end_idx < training_tokens@.len() - config.ngram_size + 1,
        forall|k: int, j: int| 0 <= k < j < clusters@.len() ==> #[trigger] clusters@[k]@.end_idx < #[trigger] clusters@[j]@.end_idx,
        forall|j: int|
            0 <= j < training_tokens@.len() - config.ngram_size + 1 && (forall|p: int|
                0 <= p < j ==> hot_at(&spec_context(index, config), training_tokens@, p)) && spec_docs_for(
                &spec_context(index, config),
                spec_hash_ngram(training_tokens@.subrange(j, j + config.ngram_size)),
            ) is Some && !#[trigger] hot_at(&spec_context(index, config), training_tokens@, j) ==> clusters@.len() > 0
                && clusters@[0]@ == spec_expand(
                &spec_context(index, config),
                training_tokens@,
                j as usize,
                spec_docs_for(
                    &spec_context(index, config),
                    spec_hash_ngram(training_tokens@.subrange(j, j + config.ngram_size)),
                )->0,
                spec_hash_ngram(training_tokens@.subrange(j, j + config.ngram_size)),
            ),
{
    let mut clusters: Vec<SimpleContaminationCluster> = Vec::new();
    let ghost ctx = spec_context(index, config);
    let ghost sample = config.sample_every_m_tokens;
    if training_tokens.len() < config.ngram_size {
        assert(clusters_from(&ctx, training_tokens@, sample, 0) =~= Seq::<ClusterModel>::empty());
        assert(cluster_views(clusters@) =~= Seq::<ClusterModel>::empty());
        return clusters;
    }
    let total_ngrams = training_tokens.len() - config.ngram_size + 1;
    let context = ExpansionContext {
        question_ngram_to_id: &index.question_ngram_to_id,
        question_ngram_id_to_eval_doc_ids: &index.question_ngram_id_to_eval_doc_ids,
        ngram_size: config.ngram_size,
        question_max_consecutive_misses: config.question_max_consecutive_misses as u32,
        hot_bucket_id: index.hot_bucket_id,
        question_ngram_id_to_hot_bucket_doc_ids: &index.question_ngram_id_to_hot_bucket_doc_ids,
    };
    assert(context == ctx);
    let mut i: usize = 0;
    assert(cluster_views(clusters@) + clusters_from(&ctx, training_tokens@, sample, 0) =~= clusters_from(&ctx, training_tokens@, sample, 0));
    while i < total_ngrams
        invariant
            context == ctx,
            ctx == spec_context(index, config),
            sample == config.sample_every_m_tokens,
            sample >= 1,
            training_tokens@.len() + sample < usize::MAX,
            total_ngrams == training_tokens@.len() - config.ngram_size + 1,
            config.ngram_size <= training_tokens@.len(),
            cluster_views(clusters@) + clusters_from(&ctx, training_tokens@, sample, i as int)
                == clusters_from(&ctx, training_tokens@, sample, 0),
            forall|k: int| 0 <= k < clusters@.len() ==> #[trigger] clusters@[k]@.end_idx < i,
            forall|k: int| 0 <= k < clusters@.len() ==> #[trigger] clusters@[k]@.end_idx < total_ngrams,
            forall|k: int, j: int| 0 <= k < j < clusters@.len() ==> #[trigger] clusters@[k]@.end_idx < #[trigger] clusters@[j]@.end_idx,
        decreases (if i < total_ngrams { total_ngrams - i } else { 0 }),
    {
        let ghost h = spec_hash_ngram(training_tokens@.subrange(i as int, i + config.ngram_size));
        let document_ids = check_ngram_for_match(
            i,
            training_tokens,
            config,
            &index.question_ngram_to_id,
            &index.question_ngram_id_to_eval_doc_ids,
        );
        match document_ids {
            None => {
                i = i + config.sample_every_m_tokens;
            },
            Some(document_ids) => {
                if document_ids.len() == 1 && document_ids.contains(&index.hot_bucket_id) {
                    i = i + 1;
                } else {
                    let ngram_tokens = &training_tokens[i..i + config.ngram_size];
                    assert(ngram_tokens@ == training_tokens@.subrange(i as int, i + config.ngram_size));
                    let ghost docs = document_ids@;
                    let ghost old_clusters = clusters@;
                    match expand_simple_contamination_cluster(i, training_tokens, &context, document_ids, ngram_tokens, stats) {
                        Some(cluster) => {
                            let cluster_end = cluster.end_idx;
                            let ghost c = cluster@;
                            clusters.push(cluster);
                            proof {
                                assert(cluster_views(clusters@) =~= cluster_views(old_clusters).push(c));
                                assert(c == spec_expand(&ctx, training_tokens@, i, docs, h));
                            }
                            i = if i > cluster_end + 1 { i } else { cluster_end + 1 };
                        },
                        None => {
                            i = i + config.sample_every_m_tokens;
                        },
                    }
                }
            },
        }
    }
    proof {
        assert(clusters_from(&ctx, training_tokens@, sample, i as int) =~= Seq::<ClusterModel>::empty());
        assert(cluster_views(clusters@) + Seq::<ClusterModel>::empty() =~= cluster_views(clusters@));
        assert forall|j: int|
            0 <= j < training_tokens@.len() - config.ngram_size + 1 && (forall|p: int|
                0 <= p < j ==> hot_at(&ctx, training_tokens@, p)) && spec_docs_for(
                &ctx,
                spec_hash_ngram(training_tokens@.subrange(j, j + config.ngram_size)),
            ) is Some && !#[trigger] hot_at(&ctx, training_tokens@, j) implies clusters@.len() > 0
                && clusters@[0]@ == spec_expand(
                &ctx,
                training_tokens@,
                j as usize,
                spec_docs_for(&ctx, spec_hash_ngram(training_tokens@.subrange(j, j + config.ngram_size)))->0,
                spec_hash_ngram(training_tokens@.subrange(j, j + config.ngram_size)),
            ) by {
            lemma_hot_run_reaches_hit(&ctx, training_tokens@, sample, 0, j);
            assert(cluster_views(clusters@)[0] == clusters@[0]@);
        }
    }
    clusters
}

/// Whether the n-gram at position `p` is hot: its index entry holds only the
/// sentinel document.
pub open spec fn hot_at(ctx: &ExpansionContext, tokens: Seq<usize>, p: int) -> bool {
    match spec_docs_for(ctx, spec_hash_ngram(tokens.subrange(p, p + ctx.ngram_size))) {
        Some(docs) => docs.len() == 1 && docs.contains(ctx.hot_bucket_id),
        None => false,
    }
}

/// A hot n-gram hides nothing: sampling that lands on one examines the very
/// next position, so the clusters found from it are those found from the
/// next position.
pub proof fn lemma_hot_ngram_moves_by_one(ctx: &ExpansionContext, tokens: Seq<usize>, sample: usize, i: int)
    requires
        sample >= 1,
        0 <= i < tokens.len() - ctx.ngram_size + 1,
        hot_at(ctx, tokens, i),
    ensures
        clusters_from(ctx, tokens, sample, i) == clusters_from(ctx, tokens, sample, i + 1),
{
}

/// A run of hot n-grams from a sampled position is scanned one position at
/// a time: when the positions `i..j` are all hot and position `j` holds an
/// n-gram of evaluation documents that is not hot, the first cluster found
/// from `i` is the expansion of the hit at `j`.
pub proof fn lemma_hot_run_reaches_hit(ctx: &ExpansionContext, tokens: Seq<usize>, sample: usize, i: int, j: int)
    requires
        sample >= 1,
        0 <= i <= j < tokens.len() - ctx.ngram_size + 1,
        forall|p: int| i <= p < j ==> hot_at(ctx, tokens, p),
        spec_docs_for(ctx, spec_hash_ngram(tokens.subrange(j, j + ctx.ngram_size))) is Some,
        !hot_at(ctx, tokens, j),
    ensures
        clusters_from(ctx, tokens, sample, i).len() > 0,
        clusters_from(ctx, tokens, sample, i)[0] == spec_expand(
            ctx,
            tokens,
            j as usize,
            spec_docs_for(ctx, spec_hash_ngram(tokens.subrange(j, j + ctx.ngram_size)))->0,
            spec_hash_ngram(tokens.subrange(j, j + ctx.ngram_size)),
        ),
    decreases j - i,
{
    if i < j {
        lemma_hot_ngram_moves_by_one(ctx, tokens, sample, i);
        lemma_hot_run_reaches_hit(ctx, tokens, sample, i + 1, j);
    }
}

} // verus!
