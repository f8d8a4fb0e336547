//! Default detection settings and the checks on configured values.

use vstd::prelude::*;
use vstd::string::StringExecFns;

verus! {

/// The detection mode.
pub fn default_mode() -> (res: String)
    ensures
        res@ == "simple"@,
{
    String::from_str("simple")
}

/// The size of question n-grams.
pub fn default_ngram_size() -> (res: usize)
    ensures
        res == 5,
{
    5
}

/// The tokenizer.
pub fn default_tokenizer_str() -> (res: String)
    ensures
        res@ == "cl100k"@,
{
    String::from_str("cl100k")
}

/// The JSON field that holds a training document's text.
pub fn default_content_key() -> (res: String)
    ensures
        res@ == "text"@,
{
    String::from_str("text")
}

/// The sampling interval over training tokens.
pub fn default_sample_every_m_tokens() -> (res: usize)
    ensures
        res == 10,
{
    10
}

/// The consecutive misses after which a question traversal drops a document.
pub fn default_question_max_consecutive_misses() -> (res: usize)
    ensures
        res == 11,
{
    11
}

/// The size of the n-gram bucket cache.
pub fn default_ngram_bucket_lru_cache() -> (res: usize)
    ensures
        res == 10000,
{
    10000
}

/// The window searched for an exact short answer.
pub fn default_short_answer_window_length() -> (res: usize)
    ensures
        res == 50,
{
    50
}

/// The smallest window searched for a long answer.
pub fn default_min_long_answer_window() -> (res: usize)
    ensures
        res == 100,
{
    100
}

/// The longest answer, in tokens, that is matched exactly.
pub fn default_short_answer_token_threshold() -> (res: usize)
    ensures
        res == 3,
{
    3
}

/// The size of long answer n-grams.
pub fn default_answer_ngram_size() -> (res: usize)
    ensures
        res == 3,
{
    3
}

/// The smallest window searched for a passage.
pub fn default_min_passage_distance() -> (res: usize)
    ensures
        res == 100,
{
    100
}

/// The consecutive misses that end a passage scan.
pub fn default_passage_max_consecutive_misses() -> (res: usize)
    ensures
        res == 2,
{
    2
}

/// The size of passage n-grams.
pub fn default_passage_ngram_size() -> (res: usize)
    ensures
        res == 4,
{
    4
}

/// Whether duplicate reference entries are skipped.
pub fn default_eval_dedup() -> (res: bool)
    ensures
        res,
{
    true
}

/// The fewest tokens of an indexed reference entry.
pub fn default_eval_min_token_length() -> (res: usize)
    ensures
        res == 20,
{
    20
}

/// The fewest distinct words of an indexed reference entry.
pub fn default_eval_min_unique_word_count() -> (res: usize)
    ensures
        res == 4,
{
    4
}

/// The question length up to which a perfect match is required.
pub fn default_perfect_match_decay_start() -> (res: Option<usize>)
    ensures
        res == Some(20usize),
{
    Some(20)
}

/// The question length from which the configured threshold applies.
pub fn default_perfect_match_decay_end() -> (res: Option<usize>)
    ensures
        res == Some(50usize),
{
    Some(50)
}

/// Whether passages are indexed.
pub fn default_index_passages() -> (res: bool)
    ensures
        res,
{
    true
}

/// Whether answers are indexed.
pub fn default_index_answers() -> (res: bool)
    ensures
        res,
{
    true
}

/// A configured value that detection cannot work with.
#[derive(Debug, PartialEq, Eq)]
pub enum ConfigValueError {
    /// The sampling interval is zero.
    SampleIntervalZero,
    /// The decay end lies before the decay start.
    DecayEndBeforeStart { decay_start: usize, decay_end: usize },
}

/// Checks the numeric settings: the sampling interval must be at least one,
/// and the perfect match decay must not end before it starts.
pub fn check_config_values(
    sample_every_m_tokens: usize,
    perfect_match_decay_start: Option<usize>,
    perfect_match_decay_end: Option<usize>,
) -> (res: Result<(), ConfigValueError>)
    ensures
        sample_every_m_tokens < 1 ==> res == Err::<(), ConfigValueError>(ConfigValueError::SampleIntervalZero),
        sample_every_m_tokens >= 1 ==> match (perfect_match_decay_start, perfect_match_decay_end) {
            (Some(s), Some(e)) => if e < s {
                res == Err::<(), ConfigValueError>(ConfigValueError::DecayEndBeforeStart { decay_start: s, decay_end: e })
            } else {
                res is Ok
            },
            _ => res is Ok,
        },
{
    if sample_every_m_tokens < 1 {
        return Err(ConfigValueError::SampleIntervalZero);
    }
    if let (Some(decay_start), Some(decay_end)) = (perfect_match_decay_start, perfect_match_decay_end) {
        if decay_end < decay_start {
            return Err(ConfigValueError::DecayEndBeforeStart { decay_start, decay_end });
        }
    }
    Ok(())
}

/// The settings of a detection run that command-line options can override:
/// all but the score threshold, a float, and the evaluation directory, which
/// is chosen by looking at the file system.
pub struct DetectionSettings {
    pub content_key: String,
    pub training_dir: String,
    pub report_output_dir: String,
    pub cleaned_output_dir: Option<String>,
    pub purify: bool,
    pub tokenizer_str: String,
    pub ngram_size: usize,
    pub sample_every_m_tokens: usize,
    pub question_max_consecutive_misses: usize,
    pub short_answer_token_threshold: usize,
    pub short_answer_window_length: usize,
    pub min_long_answer_window: usize,
    pub answer_ngram_size: usize,
    pub passage_max_consecutive_misses: usize,
    pub passage_ngram_size: usize,
    pub worker_threads: usize,
    pub eval_dedup: bool,
    pub index_passages: bool,
    pub index_answers: bool,
    pub eval_min_token_length: usize,
    pub eval_min_unique_word_count: usize,
    pub perfect_match_decay_start: Option<usize>,
    pub perfect_match_decay_end: Option<usize>,
    pub verbose: bool,
}

/// The detection options given on the command line; `None` leaves a
/// setting as configured.
pub struct DetectionOverrides {
    pub training_dir: Option<String>,
    pub content_key: Option<String>,
    pub report_output_dir: Option<String>,
    pub cleaned_output_dir: Option<String>,
    pub purify: bool,
    pub tokenizer: Option<String>,
    pub ngram_size: Option<usize>,
    pub sample_every_m_tokens: Option<usize>,
    pub question_max_consecutive_misses: Option<usize>,
    pub short_answer_token_threshold: Option<usize>,
    pub short_answer_window_length: Option<usize>,
    pub min_long_answer_window: Option<usize>,
    pub answer_ngram_size: Option<usize>,
    pub passage_max_consecutive_misses: Option<usize>,
    pub passage_ngram_size: Option<usize>,
    pub worker_threads: Option<usize>,
    pub eval_dedup: bool,
    pub index_passages: Option<bool>,
    pub index_answers: Option<bool>,
    pub eval_min_token_length: Option<usize>,
    pub eval_min_unique_word_count: Option<usize>,
    pub perfect_match_decay_start: Option<usize>,
    pub perfect_match_decay_end: Option<usize>,
    pub verbose: bool,
}

/// What applying the options found worth a warning.
pub struct OverrideWarnings {
    /// A cleaned output directory was given without purification.
    pub cleaned_dir_without_purify: bool,
    /// The sampling interval was zero and was raised to one.
    pub sample_interval_raised: bool,
    /// The sampling interval is above one hundred.
    pub sample_interval_large: bool,
}

/// The option's value, or the setting's when the option is not given.
pub open spec fn pick<T>(option: Option<T>, setting: T) -> T {
    match option {
        Some(v) => v,
        None => setting,
    }
}

/// The view of an optional string option, or of the setting.
pub open spec fn pick_text(option: Option<String>, setting: String) -> Seq<char> {
    match option {
        Some(v) => v@,
        None => setting@,
    }
}

fn take_option(option: &Option<String>, setting: &mut String)
    ensures
        final(setting)@ == pick_text(*option, *old(setting)),
{
    if let Some(v) = option {
        *setting = v.clone();
    }
}

fn take_count(option: Option<usize>, setting: &mut usize)
    ensures
        *final(setting) == pick(option, *old(setting)),
{
    if let Some(v) = option {
        *setting = v;
    }
}

fn take_flag(option: Option<bool>, setting: &mut bool)
    ensures
        *final(setting) == pick(option, *old(setting)),
{
    if let Some(v) = option {
        *setting = v;
    }
}

fn take_bound(option: Option<usize>, setting: &mut Option<usize>)
    ensures
        *final(setting) == match option {
            Some(v) => Some(v),
            None => *old(setting),
        },
{
    if let Some(v) = option {
        *setting = Some(v);
    }
}

/// Applies the command-line options to the settings: a given option
/// replaces its setting, `purify` is set as given, `eval_dedup` and
/// `verbose` can only be switched on, the decay bounds are set when given,
/// and a sampling interval of zero is raised to one.
pub fn apply_common_detection_overrides(settings: &mut DetectionSettings, args: &DetectionOverrides) -> (warnings: OverrideWarnings)
    ensures
        final(settings).content_key@ == pick_text(args.content_key, old(settings).content_key),
        final(settings).training_dir@ == pick_text(args.training_dir, old(settings).training_dir),
        final(settings).report_output_dir@ == pick_text(args.report_output_dir, old(settings).report_output_dir),
        final(settings).cleaned_output_dir.is_some() == (args.cleaned_output_dir.is_some()
            || old(settings).cleaned_output_dir.is_some()),
        final(settings).cleaned_output_dir matches Some(d) ==> d@ == match args.cleaned_output_dir {
            Some(a) => a@,
            None => old(settings).cleaned_output_dir->0@,
        },
        final(settings).purify == args.purify,
        final(settings).tokenizer_str@ == pick_text(args.tokenizer, old(settings).tokenizer_str),
        final(settings).ngram_size == pick(args.ngram_size, old(settings).ngram_size),
        final(settings).sample_every_m_tokens == if pick(args.sample_every_m_tokens, old(settings).sample_every_m_tokens) < 1 {
            1
        } else {
            pick(args.sample_every_m_tokens, old(settings).sample_every_m_tokens)
        },
        final(settings).question_max_consecutive_misses == pick(args.question_max_consecutive_misses, old(settings).question_max_consecutive_misses),
        final(settings).short_answer_token_threshold == pick(args.short_answer_token_threshold, old(settings).short_answer_token_threshold),
        final(settings).short_answer_window_length == pick(args.short_answer_window_length, old(settings).short_answer_window_length),
        final(settings).min_long_answer_window == pick(args.min_long_answer_window, old(settings).min_long_answer_window),
        final(settings).answer_ngram_size == pick(args.answer_ngram_size, old(settings).answer_ngram_size),
        final(settings).passage_max_consecutive_misses == pick(args.passage_max_consecutive_misses, old(settings).passage_max_consecutive_misses),
        final(settings).passage_ngram_size == pick(args.passage_ngram_size, old(settings).passage_ngram_size),
        final(settings).worker_threads == pick(args.worker_threads, old(settings).worker_threads),
        final(settings).eval_dedup == (args.eval_dedup || old(settings).eval_dedup),
        final(settings).index_passages == pick(args.index_passages, old(settings).index_passages),
        final(settings).index_answers == pick(args.index_answers, old(settings).index_answers),
        final(settings).eval_min_token_length == pick(args.eval_min_token_length, old(settings).eval_min_token_length),
        final(settings).eval_min_unique_word_count == pick(args.eval_min_unique_word_count, old(settings).eval_min_unique_word_count),
        final(settings).perfect_match_decay_start == match args.perfect_match_decay_start {
            Some(v) => Some(v),
            None => old(settings).perfect_match_decay_start,
        },
        final(settings).perfect_match_decay_end == match args.perfect_match_decay_end {
            Some(v) => Some(v),
            None => old(settings).perfect_match_decay_end,
        },
        final(settings).verbose == (args.verbose || old(settings).verbose),
        warnings.cleaned_dir_without_purify == (args.cleaned_output_dir.is_some() && !args.purify),
        warnings.sample_interval_raised == (pick(args.sample_every_m_tokens, old(settings).sample_every_m_tokens) < 1),
        warnings.sample_interval_large == (final(settings).sample_every_m_tokens > 100),
{
    take_option(&args.content_key, &mut settings.content_key);
    take_option(&args.training_dir, &mut settings.training_dir);
    take_option(&args.report_output_dir, &mut settings.report_output_dir);
    if let Some(cod) = &args.cleaned_output_dir {
        settings.cleaned_output_dir = Some(cod.clone());
    }
    settings.purify = args.purify;
    let cleaned_dir_without_purify = args.cleaned_output_dir.is_some() && !args.purify;
    take_option(&args.tokenizer, &mut settings.tokenizer_str);
    take_count(args.ngram_size, &mut settings.ngram_size);
    take_count(args.sample_every_m_tokens, &mut settings.sample_every_m_tokens);
    let sample_interval_raised = settings.sample_every_m_tokens < 1;
    if sample_interval_raised {
        settings.sample_every_m_tokens = 1;
    }
    let sample_interval_large = settings.sample_every_m_tokens > 100;
    take_count(args.question_max_consecutive_misses, &mut settings.question_max_consecutive_misses);
    take_count(args.short_answer_token_threshold, &mut settings.short_answer_token_threshold);
    take_count(args.short_answer_window_length, &mut settings.short_answer_window_length);
    take_count(args.min_long_answer_window, &mut settings.min_long_answer_window);
    take_count(args.answer_ngram_size, &mut settings.answer_ngram_size);
    take_count(args.passage_max_consecutive_misses, &mut settings.passage_max_consecutive_misses);
    take_count(args.passage_ngram_size, &mut settings.passage_ngram_size);
    take_count(args.worker_threads, &mut settings.worker_threads);
    settings.eval_dedup = args.eval_dedup || settings.eval_dedup;
    take_flag(args.index_passages, &mut settings.index_passages);
    take_flag(args.index_answers, &mut settings.index_answers);
    take_count(args.eval_min_token_length, &mut settings.eval_min_token_length);
    take_count(args.eval_min_unique_word_count, &mut settings.eval_min_unique_word_count);
    take_bound(args.perfect_match_decay_start, &mut settings.perfect_match_decay_start);
    take_bound(args.perfect_match_decay_end, &mut settings.perfect_match_decay_end);
    settings.verbose = args.verbose || settings.verbose;
    OverrideWarnings { cleaned_dir_without_purify, sample_interval_raised, sample_interval_large }
}

/// What the `evals` command does.
#[derive(Debug, PartialEq, Eq)]
pub enum EvalsAction {
    /// Download every evaluation dataset.
    DownloadAll,
    /// Download the named evaluation dataset.
    DownloadOne(String),
    /// Show the datasets of a directory (the one given, or else the default
    /// one), with detailed statistics when asked.
    ShowStats { dir: Option<String>, detailed: bool },
}

/// The options of the `evals` command.
pub struct EvalsArgs {
    pub dir: Option<String>,
    pub stats: bool,
    pub download: bool,
    pub eval: Option<String>,
    pub output_dir: Option<String>,
    pub config: Option<String>,
}

impl EvalsArgs {
    /// What the options ask for: downloading everything wins over one
    /// dataset, and either wins over showing statistics.
    pub fn action(&self) -> (a: EvalsAction)
        ensures
            self.download ==> a == EvalsAction::DownloadAll,
            !self.download && self.eval is Some ==> (a matches EvalsAction::DownloadOne(n) && n@ == self.eval->0@),
            !self.download && self.eval is None ==> (a matches EvalsAction::ShowStats { dir, detailed } && detailed
                == self.stats && dir.is_some() == self.dir.is_some() && (dir matches Some(d) ==> d@
                == self.dir->0@)),
    {
        if self.download {
            EvalsAction::DownloadAll
        } else if let Some(name) = &self.eval {
            EvalsAction::DownloadOne(name.clone())
        } else {
            let dir = match &self.dir {
                Some(d) => Some(d.clone()),
                None => None,
            };
            EvalsAction::ShowStats { dir, detailed: self.stats }
        }
    }
}

} // verus!
