use decon::config::{
    apply_common_detection_overrides, check_config_values, default_answer_ngram_size, default_content_key,
    default_eval_dedup, default_eval_min_token_length, default_eval_min_unique_word_count, default_index_answers,
    default_index_passages, default_min_long_answer_window, default_min_passage_distance, default_mode,
    default_ngram_bucket_lru_cache, default_ngram_size, default_passage_max_consecutive_misses,
    default_passage_ngram_size, default_perfect_match_decay_end, default_perfect_match_decay_start,
    default_question_max_consecutive_misses, default_sample_every_m_tokens, default_short_answer_token_threshold,
    default_short_answer_window_length, default_tokenizer_str, ConfigValueError, DetectionOverrides,
    DetectionSettings, EvalsAction, EvalsArgs,
};

fn settings() -> DetectionSettings {
    DetectionSettings {
        content_key: default_content_key(),
        training_dir: "/data/train".to_string(),
        report_output_dir: "/tmp/report".to_string(),
        cleaned_output_dir: None,
        purify: false,
        tokenizer_str: default_tokenizer_str(),
        ngram_size: default_ngram_size(),
        sample_every_m_tokens: default_sample_every_m_tokens(),
        question_max_consecutive_misses: default_question_max_consecutive_misses(),
        short_answer_token_threshold: default_short_answer_token_threshold(),
        short_answer_window_length: default_short_answer_window_length(),
        min_long_answer_window: default_min_long_answer_window(),
        answer_ngram_size: default_answer_ngram_size(),
        passage_max_consecutive_misses: default_passage_max_consecutive_misses(),
        passage_ngram_size: default_passage_ngram_size(),
        worker_threads: 4,
        eval_dedup: default_eval_dedup(),
        index_passages: default_index_passages(),
        index_answers: default_index_answers(),
        eval_min_token_length: default_eval_min_token_length(),
        eval_min_unique_word_count: default_eval_min_unique_word_count(),
        perfect_match_decay_start: default_perfect_match_decay_start(),
        perfect_match_decay_end: default_perfect_match_decay_end(),
        verbose: false,
    }
}

fn no_overrides() -> DetectionOverrides {
    DetectionOverrides {
        training_dir: None,
        content_key: None,
        report_output_dir: None,
        cleaned_output_dir: None,
        purify: false,
        tokenizer: None,
        ngram_size: None,
        sample_every_m_tokens: None,
        question_max_consecutive_misses: None,
        short_answer_token_threshold: None,
        short_answer_window_length: None,
        min_long_answer_window: None,
        answer_ngram_size: None,
        passage_max_consecutive_misses: None,
        passage_ngram_size: None,
        worker_threads: None,
        eval_dedup: false,
        index_passages: None,
        index_answers: None,
        eval_min_token_length: None,
        eval_min_unique_word_count: None,
        perfect_match_decay_start: None,
        perfect_match_decay_end: None,
        verbose: false,
    }
}

#[test]
fn defaults_have_the_documented_values() {
    assert_eq!(default_mode(), "simple");
    assert_eq!(default_ngram_size(), 5);
    assert_eq!(default_tokenizer_str(), "cl100k");
    assert_eq!(default_content_key(), "text");
    assert!(default_sample_every_m_tokens() >= 1);
    assert!(default_ngram_bucket_lru_cache() > 0);
    assert!(default_min_passage_distance() > 0);
}

#[test]
fn no_options_keep_the_settings() {
    let mut s = settings();
    let w = apply_common_detection_overrides(&mut s, &no_overrides());
    assert_eq!(s.ngram_size, default_ngram_size());
    assert_eq!(s.tokenizer_str, "cl100k");
    assert_eq!(s.training_dir, "/data/train");
    assert!(!w.cleaned_dir_without_purify);
    assert!(!w.sample_interval_raised);
}

#[test]
fn given_options_replace_settings() {
    let mut s = settings();
    let mut o = no_overrides();
    o.ngram_size = Some(7);
    o.tokenizer = Some("o200k".to_string());
    o.content_key = Some("body".to_string());
    o.index_answers = Some(false);
    o.perfect_match_decay_end = Some(80);
    o.verbose = true;
    o.eval_dedup = true;
    let _ = apply_common_detection_overrides(&mut s, &o);
    assert_eq!(s.ngram_size, 7);
    assert_eq!(s.tokenizer_str, "o200k");
    assert_eq!(s.content_key, "body");
    assert!(!s.index_answers);
    assert_eq!(s.perfect_match_decay_end, Some(80));
    assert!(s.verbose);
    assert!(s.eval_dedup);
}

#[test]
fn zero_sampling_interval_is_raised_to_one() {
    let mut s = settings();
    let mut o = no_overrides();
    o.sample_every_m_tokens = Some(0);
    let w = apply_common_detection_overrides(&mut s, &o);
    assert_eq!(s.sample_every_m_tokens, 1);
    assert!(w.sample_interval_raised);
    assert!(!w.sample_interval_large);

    o.sample_every_m_tokens = Some(500);
    let w = apply_common_detection_overrides(&mut s, &o);
    assert_eq!(s.sample_every_m_tokens, 500);
    assert!(w.sample_interval_large);
}

#[test]
fn cleaned_dir_without_purify_is_reported() {
    let mut s = settings();
    let mut o = no_overrides();
    o.cleaned_output_dir = Some("/tmp/clean".to_string());
    let w = apply_common_detection_overrides(&mut s, &o);
    assert!(w.cleaned_dir_without_purify);
    assert_eq!(s.cleaned_output_dir.as_deref(), Some("/tmp/clean"));
    o.purify = true;
    let w = apply_common_detection_overrides(&mut s, &o);
    assert!(!w.cleaned_dir_without_purify);
    assert!(s.purify);
}

#[test]
fn config_values_are_checked() {
    assert_eq!(check_config_values(0, None, None), Err(ConfigValueError::SampleIntervalZero));
    assert_eq!(
        check_config_values(1, Some(50), Some(20)),
        Err(ConfigValueError::DecayEndBeforeStart { decay_start: 50, decay_end: 20 })
    );
    assert_eq!(check_config_values(1, Some(20), Some(50)), Ok(()));
    assert_eq!(check_config_values(3, Some(20), None), Ok(()));
}

fn evals_args() -> EvalsArgs {
    EvalsArgs { dir: None, stats: false, download: false, eval: None, output_dir: None, config: None }
}

#[test]
fn evals_action_prefers_downloads() {
    let mut a = evals_args();
    assert_eq!(a.action(), EvalsAction::ShowStats { dir: None, detailed: false });
    a.dir = Some("/evals".to_string());
    a.stats = true;
    assert_eq!(a.action(), EvalsAction::ShowStats { dir: Some("/evals".to_string()), detailed: true });
    a.eval = Some("mmlu".to_string());
    assert_eq!(a.action(), EvalsAction::DownloadOne("mmlu".to_string()));
    a.download = true;
    assert_eq!(a.action(), EvalsAction::DownloadAll);
}
