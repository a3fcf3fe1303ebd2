//! The command line of the runner: which argument is a flag, which flag takes the
//! argument behind it, and what is left over. Numbers with a fraction stay text here.
use crate::chat::copied;
use crate::command::unescape;
#[allow(unused_imports)]
use crate::command::unescaped;
#[allow(unused_imports)]
use crate::text::parsed_int;
#[allow(unused_imports)]
use crate::names::{literals, texts};
use crate::text::{chars_of, parse_unsigned, same_text, starts_with, text_between};
use vstd::prelude::*;

verus! {

/// A setting the command line can name.
#[derive(Debug, Clone, Copy, PartialEq, Eq, Structural)]
pub enum Flag {
    Temperature,
    TopK,
    TopP,
    MinP,
    RepeatPenalty,
    FrequencyPenalty,
    PresencePenalty,
    RepeatLastN,
    TypicalP,
    TopNSigma,
    DynatempRange,
    DynatempExponent,
    XtcProbability,
    XtcThreshold,
    Mirostat,
    MirostatTau,
    MirostatEta,
    LogitBias,
    IgnoreEos,
    Seed,
    LlamacppDefaults,
    AdaptiveTarget,
    AdaptiveDecay,
    Samplers,
    DryMultiplier,
    DryBase,
    DryAllowedLength,
    DryPenaltyLastN,
    DrySequenceBreaker,
    Predict,
    Cache,
    Chat,
    Force,
    Repack,
    NoRepack,
    Threads,
    ThreadsBatch,
    CtxSize,
    BatchSize,
    Infill,
    Mlock,
    Priority,
    Warmup,
    NoWarmup,
    DirectIo,
    BufferedIo,
    OverrideKv,
    CacheType,
    Perplexity,
    PplChunk,
    Perf,
    NoPerf,
    Version,
    Grammar,
    GrammarTrigger,
    GrammarFile,
    JsonSchema,
    JsonSchemaFile,
    PromptCache,
    PromptCacheAll,
    PromptCacheRo,
    ChatTemplate,
    ChatTemplateFile,
    Escape,
    NoEscape,
    SystemPrompt,
    SystemPromptFile,
    Stop,
    Model,
    Prompt,
    File,
    BinaryFile,
    LogDisable,
    LogFile,
    LogTimestamps,
    NoLogTimestamps,
    LogColors,
    NoLogColors,
    LogPrefix,
    NoLogPrefix,
    Verbose,
    Verbosity,
    RopeFreqBase,
    RopeFreqScale,
    RopeScale,
    RopeScaling,
    YarnExtFactor,
    YarnAttnFactor,
    YarnBetaFast,
    YarnBetaSlow,
    YarnOrigCtx,
    Interactive,
    InteractiveFirst,
    Conversation,
    NoConversation,
    SingleTurn,
    MultilineInput,
    InPrefix,
    InSuffix,
    InPrefixBos,
    Color,
    SimpleIo,
    DisplayPrompt,
    NoDisplayPrompt,
    Special,
    PrintTokenCount,
    VerbosePrompt,
}

/// The flag takes the argument behind it, whatever that is.
pub open spec fn wants_value(flag: Flag) -> bool {
    match flag {
        Flag::IgnoreEos | Flag::LlamacppDefaults | Flag::Chat | Flag::Force | Flag::Repack
        | Flag::NoRepack | Flag::Infill | Flag::Mlock | Flag::Warmup | Flag::NoWarmup
        | Flag::DirectIo | Flag::BufferedIo | Flag::Perplexity | Flag::Perf | Flag::NoPerf
        | Flag::Version | Flag::PromptCacheAll | Flag::PromptCacheRo | Flag::Escape
        | Flag::NoEscape | Flag::LogDisable | Flag::LogTimestamps | Flag::NoLogTimestamps
        | Flag::LogColors | Flag::NoLogColors | Flag::LogPrefix | Flag::NoLogPrefix
        | Flag::Verbose | Flag::Interactive | Flag::InteractiveFirst | Flag::Conversation
        | Flag::NoConversation | Flag::SingleTurn | Flag::MultilineInput | Flag::InPrefixBos
        | Flag::Color | Flag::SimpleIo | Flag::DisplayPrompt | Flag::NoDisplayPrompt
        | Flag::Special | Flag::PrintTokenCount | Flag::VerbosePrompt => false,
        _ => true,
    }
}

/// Whether the flag takes the argument behind it.
pub fn takes_value(flag: Flag) -> (yes: bool)
    ensures
        yes == wants_value(flag),
{
    match flag {
        Flag::IgnoreEos | Flag::LlamacppDefaults | Flag::Chat | Flag::Force | Flag::Repack
        | Flag::NoRepack | Flag::Infill | Flag::Mlock | Flag::Warmup | Flag::NoWarmup
        | Flag::DirectIo | Flag::BufferedIo | Flag::Perplexity | Flag::Perf | Flag::NoPerf
        | Flag::Version | Flag::PromptCacheAll | Flag::PromptCacheRo | Flag::Escape
        | Flag::NoEscape | Flag::LogDisable | Flag::LogTimestamps | Flag::NoLogTimestamps
        | Flag::LogColors | Flag::NoLogColors | Flag::LogPrefix | Flag::NoLogPrefix
        | Flag::Verbose | Flag::Interactive | Flag::InteractiveFirst | Flag::Conversation
        | Flag::NoConversation | Flag::SingleTurn | Flag::MultilineInput | Flag::InPrefixBos
        | Flag::Color | Flag::SimpleIo | Flag::DisplayPrompt | Flag::NoDisplayPrompt
        | Flag::Special | Flag::PrintTokenCount | Flag::VerbosePrompt => false,
        _ => true,
    }
}

/// How tokens are sampled.
pub open spec fn sampling_flag(arg: Seq<char>) -> Option<Flag> {
    if arg == "--temp"@ || arg == "--temperature"@ {
        Some(Flag::Temperature)
    } else if arg == "--top-k"@ {
        Some(Flag::TopK)
    } else if arg == "--top-p"@ {
        Some(Flag::TopP)
    } else if arg == "--min-p"@ {
        Some(Flag::MinP)
    } else if arg == "--repeat-penalty"@ {
        Some(Flag::RepeatPenalty)
    } else if arg == "--frequency-penalty"@ {
        Some(Flag::FrequencyPenalty)
    } else if arg == "--presence-penalty"@ {
        Some(Flag::PresencePenalty)
    } else if arg == "--repeat-last-n"@ {
        Some(Flag::RepeatLastN)
    } else if arg == "--typical"@ || arg == "--typical-p"@ {
        Some(Flag::TypicalP)
    } else if arg == "--top-nsigma"@ || arg == "--top-n-sigma"@ {
        Some(Flag::TopNSigma)
    } else if arg == "--dynatemp-range"@ {
        Some(Flag::DynatempRange)
    } else if arg == "--dynatemp-exp"@ {
        Some(Flag::DynatempExponent)
    } else if arg == "--xtc-probability"@ {
        Some(Flag::XtcProbability)
    } else if arg == "--xtc-threshold"@ {
        Some(Flag::XtcThreshold)
    } else if arg == "--mirostat"@ {
        Some(Flag::Mirostat)
    } else if arg == "--mirostat-ent"@ {
        Some(Flag::MirostatTau)
    } else if arg == "--mirostat-lr"@ {
        Some(Flag::MirostatEta)
    } else if arg == "--logit-bias"@ {
        Some(Flag::LogitBias)
    } else if arg == "--ignore-eos"@ {
        Some(Flag::IgnoreEos)
    } else if arg == "--seed"@ {
        Some(Flag::Seed)
    } else if arg == "--llamacpp-defaults"@ {
        Some(Flag::LlamacppDefaults)
    } else {
        None
    }
}

fn read_sampling_flag(arg: &str) -> (flag: Option<Flag>)
    ensures
        flag == sampling_flag(arg@),
{
    if same_text(arg, "--temp") || same_text(arg, "--temperature") {
        Some(Flag::Temperature)
    } else if same_text(arg, "--top-k") {
        Some(Flag::TopK)
    } else if same_text(arg, "--top-p") {
        Some(Flag::TopP)
    } else if same_text(arg, "--min-p") {
        Some(Flag::MinP)
    } else if same_text(arg, "--repeat-penalty") {
        Some(Flag::RepeatPenalty)
    } else if same_text(arg, "--frequency-penalty") {
        Some(Flag::FrequencyPenalty)
    } else if same_text(arg, "--presence-penalty") {
        Some(Flag::PresencePenalty)
    } else if same_text(arg, "--repeat-last-n") {
        Some(Flag::RepeatLastN)
    } else if same_text(arg, "--typical") || same_text(arg, "--typical-p") {
        Some(Flag::TypicalP)
    } else if same_text(arg, "--top-nsigma") || same_text(arg, "--top-n-sigma") {
        Some(Flag::TopNSigma)
    } else if same_text(arg, "--dynatemp-range") {
        Some(Flag::DynatempRange)
    } else if same_text(arg, "--dynatemp-exp") {
        Some(Flag::DynatempExponent)
    } else if same_text(arg, "--xtc-probability") {
        Some(Flag::XtcProbability)
    } else if same_text(arg, "--xtc-threshold") {
        Some(Flag::XtcThreshold)
    } else if same_text(arg, "--mirostat") {
        Some(Flag::Mirostat)
    } else if same_text(arg, "--mirostat-ent") {
        Some(Flag::MirostatTau)
    } else if same_text(arg, "--mirostat-lr") {
        Some(Flag::MirostatEta)
    } else if same_text(arg, "--logit-bias") {
        Some(Flag::LogitBias)
    } else if same_text(arg, "--ignore-eos") {
        Some(Flag::IgnoreEos)
    } else if same_text(arg, "--seed") {
        Some(Flag::Seed)
    } else if same_text(arg, "--llamacpp-defaults") {
        Some(Flag::LlamacppDefaults)
    } else {
        None
    }
}

/// Stages of other samplers.
pub open spec fn chain_flag(arg: Seq<char>) -> Option<Flag> {
    if arg == "--adaptive-target"@ || arg == "--adaptive-p"@ {
        Some(Flag::AdaptiveTarget)
    } else if arg == "--adaptive-decay"@ {
        Some(Flag::AdaptiveDecay)
    } else if arg == "--samplers"@ || arg == "--sampler-seq"@ || arg == "--sampling-seq"@ {
        Some(Flag::Samplers)
    } else if arg == "--dry-multiplier"@ {
        Some(Flag::DryMultiplier)
    } else if arg == "--dry-base"@ {
        Some(Flag::DryBase)
    } else if arg == "--dry-allowed-length"@ {
        Some(Flag::DryAllowedLength)
    } else if arg == "--dry-penalty-last-n"@ {
        Some(Flag::DryPenaltyLastN)
    } else if arg == "--dry-sequence-breaker"@ {
        Some(Flag::DrySequenceBreaker)
    } else {
        None
    }
}

fn read_chain_flag(arg: &str) -> (flag: Option<Flag>)
    ensures
        flag == chain_flag(arg@),
{
    if same_text(arg, "--adaptive-target") || same_text(arg, "--adaptive-p") {
        Some(Flag::AdaptiveTarget)
    } else if same_text(arg, "--adaptive-decay") {
        Some(Flag::AdaptiveDecay)
    } else if same_text(arg, "--samplers") || same_text(arg, "--sampler-seq")
        || same_text(arg, "--sampling-seq") {
        Some(Flag::Samplers)
    } else if same_text(arg, "--dry-multiplier") {
        Some(Flag::DryMultiplier)
    } else if same_text(arg, "--dry-base") {
        Some(Flag::DryBase)
    } else if same_text(arg, "--dry-allowed-length") {
        Some(Flag::DryAllowedLength)
    } else if same_text(arg, "--dry-penalty-last-n") {
        Some(Flag::DryPenaltyLastN)
    } else if same_text(arg, "--dry-sequence-breaker") {
        Some(Flag::DrySequenceBreaker)
    } else {
        None
    }
}

/// How the model is run.
pub open spec fn running_flag(arg: Seq<char>) -> Option<Flag> {
    if arg == "-n"@ || arg == "--n-predict"@ || arg == "--predict"@ {
        Some(Flag::Predict)
    } else if arg == "--cache"@ {
        Some(Flag::Cache)
    } else if arg == "--chat"@ {
        Some(Flag::Chat)
    } else if arg == "--force"@ {
        Some(Flag::Force)
    } else if arg == "--repack"@ {
        Some(Flag::Repack)
    } else if arg == "--no-repack"@ {
        Some(Flag::NoRepack)
    } else if arg == "-t"@ || arg == "--threads"@ {
        Some(Flag::Threads)
    } else if arg == "-tb"@ || arg == "--threads-batch"@ {
        Some(Flag::ThreadsBatch)
    } else if arg == "-c"@ || arg == "--ctx-size"@ {
        Some(Flag::CtxSize)
    } else if arg == "-b"@ || arg == "--batch-size"@ {
        Some(Flag::BatchSize)
    } else if arg == "--infill"@ {
        Some(Flag::Infill)
    } else if arg == "--mlock"@ {
        Some(Flag::Mlock)
    } else if arg == "--prio"@ || arg == "--prio-batch"@ {
        Some(Flag::Priority)
    } else if arg == "--warmup"@ {
        Some(Flag::Warmup)
    } else if arg == "--no-warmup"@ {
        Some(Flag::NoWarmup)
    } else if arg == "--direct-io"@ {
        Some(Flag::DirectIo)
    } else if arg == "--no-direct-io"@ || arg == "--no-mmap"@ {
        Some(Flag::BufferedIo)
    } else if arg == "--override-kv"@ {
        Some(Flag::OverrideKv)
    } else if arg == "--cache-type-k"@ || arg == "-ctk"@ || arg == "--cache-type-v"@
        || arg == "-ctv"@ {
        Some(Flag::CacheType)
    } else if arg == "--perplexity"@ || arg == "--ppl"@ {
        Some(Flag::Perplexity)
    } else if arg == "--ppl-chunk"@ {
        Some(Flag::PplChunk)
    } else if arg == "--perf"@ {
        Some(Flag::Perf)
    } else if arg == "--no-perf"@ {
        Some(Flag::NoPerf)
    } else if arg == "--version"@ {
        Some(Flag::Version)
    } else {
        None
    }
}

fn read_running_flag(arg: &str) -> (flag: Option<Flag>)
    ensures
        flag == running_flag(arg@),
{
    if same_text(arg, "-n") || same_text(arg, "--n-predict") || same_text(arg, "--predict") {
        Some(Flag::Predict)
    } else if same_text(arg, "--cache") {
        Some(Flag::Cache)
    } else if same_text(arg, "--chat") {
        Some(Flag::Chat)
    } else if same_text(arg, "--force") {
        Some(Flag::Force)
    } else if same_text(arg, "--repack") {
        Some(Flag::Repack)
    } else if same_text(arg, "--no-repack") {
        Some(Flag::NoRepack)
    } else if same_text(arg, "-t") || same_text(arg, "--threads") {
        Some(Flag::Threads)
    } else if same_text(arg, "-tb") || same_text(arg, "--threads-batch") {
        Some(Flag::ThreadsBatch)
    } else if same_text(arg, "-c") || same_text(arg, "--ctx-size") {
        Some(Flag::CtxSize)
    } else if same_text(arg, "-b") || same_text(arg, "--batch-size") {
        Some(Flag::BatchSize)
    } else if same_text(arg, "--infill") {
        Some(Flag::Infill)
    } else if same_text(arg, "--mlock") {
        Some(Flag::Mlock)
    } else if same_text(arg, "--prio") || same_text(arg, "--prio-batch") {
        Some(Flag::Priority)
    } else if same_text(arg, "--warmup") {
        Some(Flag::Warmup)
    } else if same_text(arg, "--no-warmup") {
        Some(Flag::NoWarmup)
    } else if same_text(arg, "--direct-io") {
        Some(Flag::DirectIo)
    } else if same_text(arg, "--no-direct-io") || same_text(arg, "--no-mmap") {
        Some(Flag::BufferedIo)
    } else if same_text(arg, "--override-kv") {
        Some(Flag::OverrideKv)
    } else if same_text(arg, "--cache-type-k") || same_text(arg, "-ctk")
        || same_text(arg, "--cache-type-v") || same_text(arg, "-ctv") {
        Some(Flag::CacheType)
    } else if same_text(arg, "--perplexity") || same_text(arg, "--ppl") {
        Some(Flag::Perplexity)
    } else if same_text(arg, "--ppl-chunk") {
        Some(Flag::PplChunk)
    } else if same_text(arg, "--perf") {
        Some(Flag::Perf)
    } else if same_text(arg, "--no-perf") {
        Some(Flag::NoPerf)
    } else if same_text(arg, "--version") {
        Some(Flag::Version)
    } else {
        None
    }
}

/// What is asked, and what the answer must look like.
pub open spec fn prompting_flag(arg: Seq<char>) -> Option<Flag> {
    if arg == "--grammar"@ {
        Some(Flag::Grammar)
    } else if arg == "--grammar-lazy"@ || arg == "--grammar-trigger"@ {
        Some(Flag::GrammarTrigger)
    } else if arg == "--grammar-file"@ {
        Some(Flag::GrammarFile)
    } else if arg == "-j"@ || arg == "--json-schema"@ {
        Some(Flag::JsonSchema)
    } else if arg == "--json-schema-file"@ {
        Some(Flag::JsonSchemaFile)
    } else if arg == "--prompt-cache"@ {
        Some(Flag::PromptCache)
    } else if arg == "--prompt-cache-all"@ {
        Some(Flag::PromptCacheAll)
    } else if arg == "--prompt-cache-ro"@ {
        Some(Flag::PromptCacheRo)
    } else if arg == "--chat-template"@ {
        Some(Flag::ChatTemplate)
    } else if arg == "--chat-template-file"@ {
        Some(Flag::ChatTemplateFile)
    } else if arg == "-e"@ || arg == "--escape"@ {
        Some(Flag::Escape)
    } else if arg == "--no-escape"@ {
        Some(Flag::NoEscape)
    } else if arg == "-sys"@ || arg == "--system-prompt"@ {
        Some(Flag::SystemPrompt)
    } else if arg == "--system-prompt-file"@ {
        Some(Flag::SystemPromptFile)
    } else if arg == "--stop"@ || arg == "-r"@ || arg == "--reverse-prompt"@ {
        Some(Flag::Stop)
    } else if arg == "-m"@ || arg == "--model"@ {
        Some(Flag::Model)
    } else if arg == "-p"@ || arg == "--prompt"@ {
        Some(Flag::Prompt)
    } else if arg == "-f"@ || arg == "--file"@ {
        Some(Flag::File)
    } else if arg == "--binary-file"@ {
        Some(Flag::BinaryFile)
    } else {
        None
    }
}

fn read_prompting_flag(arg: &str) -> (flag: Option<Flag>)
    ensures
        flag == prompting_flag(arg@),
{
    if same_text(arg, "--grammar") {
        Some(Flag::Grammar)
    } else if same_text(arg, "--grammar-lazy") || same_text(arg, "--grammar-trigger") {
        Some(Flag::GrammarTrigger)
    } else if same_text(arg, "--grammar-file") {
        Some(Flag::GrammarFile)
    } else if same_text(arg, "-j") || same_text(arg, "--json-schema") {
        Some(Flag::JsonSchema)
    } else if same_text(arg, "--json-schema-file") {
        Some(Flag::JsonSchemaFile)
    } else if same_text(arg, "--prompt-cache") {
        Some(Flag::PromptCache)
    } else if same_text(arg, "--prompt-cache-all") {
        Some(Flag::PromptCacheAll)
    } else if same_text(arg, "--prompt-cache-ro") {
        Some(Flag::PromptCacheRo)
    } else if same_text(arg, "--chat-template") {
        Some(Flag::ChatTemplate)
    } else if same_text(arg, "--chat-template-file") {
        Some(Flag::ChatTemplateFile)
    } else if same_text(arg, "-e") || same_text(arg, "--escape") {
        Some(Flag::Escape)
    } else if same_text(arg, "--no-escape") {
        Some(Flag::NoEscape)
    } else if same_text(arg, "-sys") || same_text(arg, "--system-prompt") {
        Some(Flag::SystemPrompt)
    } else if same_text(arg, "--system-prompt-file") {
        Some(Flag::SystemPromptFile)
    } else if same_text(arg, "--stop") || same_text(arg, "-r")
        || same_text(arg, "--reverse-prompt") {
        Some(Flag::Stop)
    } else if same_text(arg, "-m") || same_text(arg, "--model") {
        Some(Flag::Model)
    } else if same_text(arg, "-p") || same_text(arg, "--prompt") {
        Some(Flag::Prompt)
    } else if same_text(arg, "-f") || same_text(arg, "--file") {
        Some(Flag::File)
    } else if same_text(arg, "--binary-file") {
        Some(Flag::BinaryFile)
    } else {
        None
    }
}

/// What is said on the side.
pub open spec fn logging_flag(arg: Seq<char>) -> Option<Flag> {
    if arg == "--log-disable"@ {
        Some(Flag::LogDisable)
    } else if arg == "--log-file"@ {
        Some(Flag::LogFile)
    } else if arg == "--log-timestamps"@ {
        Some(Flag::LogTimestamps)
    } else if arg == "--no-log-timestamps"@ {
        Some(Flag::NoLogTimestamps)
    } else if arg == "--log-colors"@ {
        Some(Flag::LogColors)
    } else if arg == "--no-log-colors"@ {
        Some(Flag::NoLogColors)
    } else if arg == "--log-prefix"@ {
        Some(Flag::LogPrefix)
    } else if arg == "--no-log-prefix"@ {
        Some(Flag::NoLogPrefix)
    } else if arg == "-v"@ || arg == "--verbose"@ || arg == "--log-verbose"@ {
        Some(Flag::Verbose)
    } else if arg == "--verbosity"@ || arg == "--log-verbosity"@ {
        Some(Flag::Verbosity)
    } else {
        None
    }
}

fn read_logging_flag(arg: &str) -> (flag: Option<Flag>)
    ensures
        flag == logging_flag(arg@),
{
    if same_text(arg, "--log-disable") {
        Some(Flag::LogDisable)
    } else if same_text(arg, "--log-file") {
        Some(Flag::LogFile)
    } else if same_text(arg, "--log-timestamps") {
        Some(Flag::LogTimestamps)
    } else if same_text(arg, "--no-log-timestamps") {
        Some(Flag::NoLogTimestamps)
    } else if same_text(arg, "--log-colors") {
        Some(Flag::LogColors)
    } else if same_text(arg, "--no-log-colors") {
        Some(Flag::NoLogColors)
    } else if same_text(arg, "--log-prefix") {
        Some(Flag::LogPrefix)
    } else if same_text(arg, "--no-log-prefix") {
        Some(Flag::NoLogPrefix)
    } else if same_text(arg, "-v") || same_text(arg, "--verbose")
        || same_text(arg, "--log-verbose") {
        Some(Flag::Verbose)
    } else if same_text(arg, "--verbosity") || same_text(arg, "--log-verbosity") {
        Some(Flag::Verbosity)
    } else {
        None
    }
}

/// The rotation, for a container whose metadata is wrong or absent.
pub open spec fn rotation_flag(arg: Seq<char>) -> Option<Flag> {
    if arg == "--rope-freq-base"@ {
        Some(Flag::RopeFreqBase)
    } else if arg == "--rope-freq-scale"@ {
        Some(Flag::RopeFreqScale)
    } else if arg == "--rope-scale"@ {
        Some(Flag::RopeScale)
    } else if arg == "--rope-scaling"@ {
        Some(Flag::RopeScaling)
    } else if arg == "--yarn-ext-factor"@ {
        Some(Flag::YarnExtFactor)
    } else if arg == "--yarn-attn-factor"@ {
        Some(Flag::YarnAttnFactor)
    } else if arg == "--yarn-beta-fast"@ {
        Some(Flag::YarnBetaFast)
    } else if arg == "--yarn-beta-slow"@ {
        Some(Flag::YarnBetaSlow)
    } else if arg == "--yarn-orig-ctx"@ {
        Some(Flag::YarnOrigCtx)
    } else {
        None
    }
}

fn read_rotation_flag(arg: &str) -> (flag: Option<Flag>)
    ensures
        flag == rotation_flag(arg@),
{
    if same_text(arg, "--rope-freq-base") {
        Some(Flag::RopeFreqBase)
    } else if same_text(arg, "--rope-freq-scale") {
        Some(Flag::RopeFreqScale)
    } else if same_text(arg, "--rope-scale") {
        Some(Flag::RopeScale)
    } else if same_text(arg, "--rope-scaling") {
        Some(Flag::RopeScaling)
    } else if same_text(arg, "--yarn-ext-factor") {
        Some(Flag::YarnExtFactor)
    } else if same_text(arg, "--yarn-attn-factor") {
        Some(Flag::YarnAttnFactor)
    } else if same_text(arg, "--yarn-beta-fast") {
        Some(Flag::YarnBetaFast)
    } else if same_text(arg, "--yarn-beta-slow") {
        Some(Flag::YarnBetaSlow)
    } else if same_text(arg, "--yarn-orig-ctx") {
        Some(Flag::YarnOrigCtx)
    } else {
        None
    }
}

/// How the turns of a session are taken.
pub open spec fn talking_flag(arg: Seq<char>) -> Option<Flag> {
    if arg == "-i"@ || arg == "--interactive"@ {
        Some(Flag::Interactive)
    } else if arg == "-if"@ || arg == "--interactive-first"@ {
        Some(Flag::InteractiveFirst)
    } else if arg == "-cnv"@ || arg == "--conversation"@ {
        Some(Flag::Conversation)
    } else if arg == "--no-conversation"@ {
        Some(Flag::NoConversation)
    } else if arg == "-st"@ || arg == "--single-turn"@ {
        Some(Flag::SingleTurn)
    } else if arg == "--multiline-input"@ {
        Some(Flag::MultilineInput)
    } else if arg == "--in-prefix"@ {
        Some(Flag::InPrefix)
    } else if arg == "--in-suffix"@ {
        Some(Flag::InSuffix)
    } else if arg == "--in-prefix-bos"@ {
        Some(Flag::InPrefixBos)
    } else if arg == "--color"@ || arg == "-co"@ {
        Some(Flag::Color)
    } else if arg == "--simple-io"@ {
        Some(Flag::SimpleIo)
    } else if arg == "--display-prompt"@ {
        Some(Flag::DisplayPrompt)
    } else if arg == "--no-display-prompt"@ {
        Some(Flag::NoDisplayPrompt)
    } else if arg == "--special"@ || arg == "-sp"@ {
        Some(Flag::Special)
    } else if arg == "--print-token-count"@ {
        Some(Flag::PrintTokenCount)
    } else if arg == "--verbose-prompt"@ {
        Some(Flag::VerbosePrompt)
    } else {
        None
    }
}

fn read_talking_flag(arg: &str) -> (flag: Option<Flag>)
    ensures
        flag == talking_flag(arg@),
{
    if same_text(arg, "-i") || same_text(arg, "--interactive") {
        Some(Flag::Interactive)
    } else if same_text(arg, "-if") || same_text(arg, "--interactive-first") {
        Some(Flag::InteractiveFirst)
    } else if same_text(arg, "-cnv") || same_text(arg, "--conversation") {
        Some(Flag::Conversation)
    } else if same_text(arg, "--no-conversation") {
        Some(Flag::NoConversation)
    } else if same_text(arg, "-st") || same_text(arg, "--single-turn") {
        Some(Flag::SingleTurn)
    } else if same_text(arg, "--multiline-input") {
        Some(Flag::MultilineInput)
    } else if same_text(arg, "--in-prefix") {
        Some(Flag::InPrefix)
    } else if same_text(arg, "--in-suffix") {
        Some(Flag::InSuffix)
    } else if same_text(arg, "--in-prefix-bos") {
        Some(Flag::InPrefixBos)
    } else if same_text(arg, "--color") || same_text(arg, "-co") {
        Some(Flag::Color)
    } else if same_text(arg, "--simple-io") {
        Some(Flag::SimpleIo)
    } else if same_text(arg, "--display-prompt") {
        Some(Flag::DisplayPrompt)
    } else if same_text(arg, "--no-display-prompt") {
        Some(Flag::NoDisplayPrompt)
    } else if same_text(arg, "--special") || same_text(arg, "-sp") {
        Some(Flag::Special)
    } else if same_text(arg, "--print-token-count") {
        Some(Flag::PrintTokenCount)
    } else if same_text(arg, "--verbose-prompt") {
        Some(Flag::VerbosePrompt)
    } else {
        None
    }
}

/// The setting an argument names, if it names one.
pub open spec fn flag_named(arg: Seq<char>) -> Option<Flag> {
    if sampling_flag(arg) is Some {
        sampling_flag(arg)
    } else if chain_flag(arg) is Some {
        chain_flag(arg)
    } else if running_flag(arg) is Some {
        running_flag(arg)
    } else if prompting_flag(arg) is Some {
        prompting_flag(arg)
    } else if logging_flag(arg) is Some {
        logging_flag(arg)
    } else if rotation_flag(arg) is Some {
        rotation_flag(arg)
    } else if talking_flag(arg) is Some {
        talking_flag(arg)
    } else {
        None
    }
}

/// The setting an argument names, if it names one.
pub fn flag_of(arg: &str) -> (flag: Option<Flag>)
    ensures
        flag == flag_named(arg@),
{
    if let Some(f) = read_sampling_flag(arg) {
        return Some(f);
    }
    if let Some(f) = read_chain_flag(arg) {
        return Some(f);
    }
    if let Some(f) = read_running_flag(arg) {
        return Some(f);
    }
    if let Some(f) = read_prompting_flag(arg) {
        return Some(f);
    }
    if let Some(f) = read_logging_flag(arg) {
        return Some(f);
    }
    if let Some(f) = read_rotation_flag(arg) {
        return Some(f);
    }
    if let Some(f) = read_talking_flag(arg) {
        return Some(f);
    }
    None
}

// ---------------------------------------------------------------- the listing

/// The names of [`sampling_flag`].
pub open spec fn sampling_names() -> Seq<Seq<char>> {
    seq![
        "--temp"@,
        "--temperature"@,
        "--top-k"@,
        "--top-p"@,
        "--min-p"@,
        "--repeat-penalty"@,
        "--frequency-penalty"@,
        "--presence-penalty"@,
        "--repeat-last-n"@,
        "--typical"@,
        "--typical-p"@,
        "--top-nsigma"@,
        "--top-n-sigma"@,
        "--dynatemp-range"@,
        "--dynatemp-exp"@,
        "--xtc-probability"@,
        "--xtc-threshold"@,
        "--mirostat"@,
        "--mirostat-ent"@,
        "--mirostat-lr"@,
        "--logit-bias"@,
        "--ignore-eos"@,
        "--seed"@,
        "--llamacpp-defaults"@,
    ]
}

fn list_sampling_names() -> (list: Vec<&'static str>)
    ensures
        literals(list@) == sampling_names(),
{
    let list: Vec<&'static str> = vec![
        "--temp",
        "--temperature",
        "--top-k",
        "--top-p",
        "--min-p",
        "--repeat-penalty",
        "--frequency-penalty",
        "--presence-penalty",
        "--repeat-last-n",
        "--typical",
        "--typical-p",
        "--top-nsigma",
        "--top-n-sigma",
        "--dynatemp-range",
        "--dynatemp-exp",
        "--xtc-probability",
        "--xtc-threshold",
        "--mirostat",
        "--mirostat-ent",
        "--mirostat-lr",
        "--logit-bias",
        "--ignore-eos",
        "--seed",
        "--llamacpp-defaults",
    ];
    assert(literals(list@) =~= sampling_names());
    list
}

proof fn sampling_names_are_its_flags(arg: Seq<char>)
    ensures
        sampling_names().contains(arg) <==> sampling_flag(arg) is Some,
{
    let names = sampling_names();
    assert(names[0] == "--temp"@);
    assert(names[1] == "--temperature"@);
    assert(names[2] == "--top-k"@);
    assert(names[3] == "--top-p"@);
    assert(names[4] == "--min-p"@);
    assert(names[5] == "--repeat-penalty"@);
    assert(names[6] == "--frequency-penalty"@);
    assert(names[7] == "--presence-penalty"@);
    assert(names[8] == "--repeat-last-n"@);
    assert(names[9] == "--typical"@);
    assert(names[10] == "--typical-p"@);
    assert(names[11] == "--top-nsigma"@);
    assert(names[12] == "--top-n-sigma"@);
    assert(names[13] == "--dynatemp-range"@);
    assert(names[14] == "--dynatemp-exp"@);
    assert(names[15] == "--xtc-probability"@);
    assert(names[16] == "--xtc-threshold"@);
    assert(names[17] == "--mirostat"@);
    assert(names[18] == "--mirostat-ent"@);
    assert(names[19] == "--mirostat-lr"@);
    assert(names[20] == "--logit-bias"@);
    assert(names[21] == "--ignore-eos"@);
    assert(names[22] == "--seed"@);
    assert(names[23] == "--llamacpp-defaults"@);
}

/// The names of [`chain_flag`].
pub open spec fn chain_names() -> Seq<Seq<char>> {
    seq![
        "--adaptive-target"@,
        "--adaptive-p"@,
        "--adaptive-decay"@,
        "--samplers"@,
        "--sampler-seq"@,
        "--sampling-seq"@,
        "--dry-multiplier"@,
        "--dry-base"@,
        "--dry-allowed-length"@,
        "--dry-penalty-last-n"@,
        "--dry-sequence-breaker"@,
    ]
}

fn list_chain_names() -> (list: Vec<&'static str>)
    ensures
        literals(list@) == chain_names(),
{
    let list: Vec<&'static str> = vec![
        "--adaptive-target",
        "--adaptive-p",
        "--adaptive-decay",
        "--samplers",
        "--sampler-seq",
        "--sampling-seq",
        "--dry-multiplier",
        "--dry-base",
        "--dry-allowed-length",
        "--dry-penalty-last-n",
        "--dry-sequence-breaker",
    ];
    assert(literals(list@) =~= chain_names());
    list
}

proof fn chain_names_are_its_flags(arg: Seq<char>)
    ensures
        chain_names().contains(arg) <==> chain_flag(arg) is Some,
{
    let names = chain_names();
    assert(names[0] == "--adaptive-target"@);
    assert(names[1] == "--adaptive-p"@);
    assert(names[2] == "--adaptive-decay"@);
    assert(names[3] == "--samplers"@);
    assert(names[4] == "--sampler-seq"@);
    assert(names[5] == "--sampling-seq"@);
    assert(names[6] == "--dry-multiplier"@);
    assert(names[7] == "--dry-base"@);
    assert(names[8] == "--dry-allowed-length"@);
    assert(names[9] == "--dry-penalty-last-n"@);
    assert(names[10] == "--dry-sequence-breaker"@);
}

/// The names of [`running_flag`].
pub open spec fn running_names() -> Seq<Seq<char>> {
    seq![
        "-n"@,
        "--n-predict"@,
        "--predict"@,
        "--cache"@,
        "--chat"@,
        "--force"@,
        "--repack"@,
        "--no-repack"@,
        "-t"@,
        "--threads"@,
        "-tb"@,
        "--threads-batch"@,
        "-c"@,
        "--ctx-size"@,
        "-b"@,
        "--batch-size"@,
        "--infill"@,
        "--mlock"@,
        "--prio"@,
        "--prio-batch"@,
        "--warmup"@,
        "--no-warmup"@,
        "--direct-io"@,
        "--no-direct-io"@,
        "--no-mmap"@,
        "--override-kv"@,
        "--cache-type-k"@,
        "-ctk"@,
        "--cache-type-v"@,
        "-ctv"@,
        "--perplexity"@,
        "--ppl"@,
        "--ppl-chunk"@,
        "--perf"@,
        "--no-perf"@,
        "--version"@,
    ]
}

fn list_running_names() -> (list: Vec<&'static str>)
    ensures
        literals(list@) == running_names(),
{
    let list: Vec<&'static str> = vec![
        "-n",
        "--n-predict",
        "--predict",
        "--cache",
        "--chat",
        "--force",
        "--repack",
        "--no-repack",
        "-t",
        "--threads",
        "-tb",
        "--threads-batch",
        "-c",
        "--ctx-size",
        "-b",
        "--batch-size",
        "--infill",
        "--mlock",
        "--prio",
        "--prio-batch",
        "--warmup",
        "--no-warmup",
        "--direct-io",
        "--no-direct-io",
        "--no-mmap",
        "--override-kv",
        "--cache-type-k",
        "-ctk",
        "--cache-type-v",
        "-ctv",
        "--perplexity",
        "--ppl",
        "--ppl-chunk",
        "--perf",
        "--no-perf",
        "--version",
    ];
    assert(literals(list@) =~= running_names());
    list
}

proof fn running_names_are_its_flags(arg: Seq<char>)
    ensures
        running_names().contains(arg) <==> running_flag(arg) is Some,
{
    let names = running_names();
    assert(names[0] == "-n"@);
    assert(names[1] == "--n-predict"@);
    assert(names[2] == "--predict"@);
    assert(names[3] == "--cache"@);
    assert(names[4] == "--chat"@);
    assert(names[5] == "--force"@);
    assert(names[6] == "--repack"@);
    assert(names[7] == "--no-repack"@);
    assert(names[8] == "-t"@);
    assert(names[9] == "--threads"@);
    assert(names[10] == "-tb"@);
    assert(names[11] == "--threads-batch"@);
    assert(names[12] == "-c"@);
    assert(names[13] == "--ctx-size"@);
    assert(names[14] == "-b"@);
    assert(names[15] == "--batch-size"@);
    assert(names[16] == "--infill"@);
    assert(names[17] == "--mlock"@);
    assert(names[18] == "--prio"@);
    assert(names[19] == "--prio-batch"@);
    assert(names[20] == "--warmup"@);
    assert(names[21] == "--no-warmup"@);
    assert(names[22] == "--direct-io"@);
    assert(names[23] == "--no-direct-io"@);
    assert(names[24] == "--no-mmap"@);
    assert(names[25] == "--override-kv"@);
    assert(names[26] == "--cache-type-k"@);
    assert(names[27] == "-ctk"@);
    assert(names[28] == "--cache-type-v"@);
    assert(names[29] == "-ctv"@);
    assert(names[30] == "--perplexity"@);
    assert(names[31] == "--ppl"@);
    assert(names[32] == "--ppl-chunk"@);
    assert(names[33] == "--perf"@);
    assert(names[34] == "--no-perf"@);
    assert(names[35] == "--version"@);
}

/// The names of [`prompting_flag`].
pub open spec fn prompting_names() -> Seq<Seq<char>> {
    seq![
        "--grammar"@,
        "--grammar-lazy"@,
        "--grammar-trigger"@,
        "--grammar-file"@,
        "-j"@,
        "--json-schema"@,
        "--json-schema-file"@,
        "--prompt-cache"@,
        "--prompt-cache-all"@,
        "--prompt-cache-ro"@,
        "--chat-template"@,
        "--chat-template-file"@,
        "-e"@,
        "--escape"@,
        "--no-escape"@,
        "-sys"@,
        "--system-prompt"@,
        "--system-prompt-file"@,
        "--stop"@,
        "-r"@,
        "--reverse-prompt"@,
        "-m"@,
        "--model"@,
        "-p"@,
        "--prompt"@,
        "-f"@,
        "--file"@,
        "--binary-file"@,
    ]
}

fn list_prompting_names() -> (list: Vec<&'static str>)
    ensures
        literals(list@) == prompting_names(),
{
    let list: Vec<&'static str> = vec![
        "--grammar",
        "--grammar-lazy",
        "--grammar-trigger",
        "--grammar-file",
        "-j",
        "--json-schema",
        "--json-schema-file",
        "--prompt-cache",
        "--prompt-cache-all",
        "--prompt-cache-ro",
        "--chat-template",
        "--chat-template-file",
        "-e",
        "--escape",
        "--no-escape",
        "-sys",
        "--system-prompt",
        "--system-prompt-file",
        "--stop",
        "-r",
        "--reverse-prompt",
        "-m",
        "--model",
        "-p",
        "--prompt",
        "-f",
        "--file",
        "--binary-file",
    ];
    assert(literals(list@) =~= prompting_names());
    list
}

proof fn prompting_names_are_its_flags(arg: Seq<char>)
    ensures
        prompting_names().contains(arg) <==> prompting_flag(arg) is Some,
{
    let names = prompting_names();
    assert(names[0] == "--grammar"@);
    assert(names[1] == "--grammar-lazy"@);
    assert(names[2] == "--grammar-trigger"@);
    assert(names[3] == "--grammar-file"@);
    assert(names[4] == "-j"@);
    assert(names[5] == "--json-schema"@);
    assert(names[6] == "--json-schema-file"@);
    assert(names[7] == "--prompt-cache"@);
    assert(names[8] == "--prompt-cache-all"@);
    assert(names[9] == "--prompt-cache-ro"@);
    assert(names[10] == "--chat-template"@);
    assert(names[11] == "--chat-template-file"@);
    assert(names[12] == "-e"@);
    assert(names[13] == "--escape"@);
    assert(names[14] == "--no-escape"@);
    assert(names[15] == "-sys"@);
    assert(names[16] == "--system-prompt"@);
    assert(names[17] == "--system-prompt-file"@);
    assert(names[18] == "--stop"@);
    assert(names[19] == "-r"@);
    assert(names[20] == "--reverse-prompt"@);
    assert(names[21] == "-m"@);
    assert(names[22] == "--model"@);
    assert(names[23] == "-p"@);
    assert(names[24] == "--prompt"@);
    assert(names[25] == "-f"@);
    assert(names[26] == "--file"@);
    assert(names[27] == "--binary-file"@);
}

/// The names of [`logging_flag`].
pub open spec fn logging_names() -> Seq<Seq<char>> {
    seq![
        "--log-disable"@,
        "--log-file"@,
        "--log-timestamps"@,
        "--no-log-timestamps"@,
        "--log-colors"@,
        "--no-log-colors"@,
        "--log-prefix"@,
        "--no-log-prefix"@,
        "-v"@,
        "--verbose"@,
        "--log-verbose"@,
        "--verbosity"@,
        "--log-verbosity"@,
    ]
}

fn list_logging_names() -> (list: Vec<&'static str>)
    ensures
        literals(list@) == logging_names(),
{
    let list: Vec<&'static str> = vec![
        "--log-disable",
        "--log-file",
        "--log-timestamps",
        "--no-log-timestamps",
        "--log-colors",
        "--no-log-colors",
        "--log-prefix",
        "--no-log-prefix",
        "-v",
        "--verbose",
        "--log-verbose",
        "--verbosity",
        "--log-verbosity",
    ];
    assert(literals(list@) =~= logging_names());
    list
}

proof fn logging_names_are_its_flags(arg: Seq<char>)
    ensures
        logging_names().contains(arg) <==> logging_flag(arg) is Some,
{
    let names = logging_names();
    assert(names[0] == "--log-disable"@);
    assert(names[1] == "--log-file"@);
    assert(names[2] == "--log-timestamps"@);
    assert(names[3] == "--no-log-timestamps"@);
    assert(names[4] == "--log-colors"@);
    assert(names[5] == "--no-log-colors"@);
    assert(names[6] == "--log-prefix"@);
    assert(names[7] == "--no-log-prefix"@);
    assert(names[8] == "-v"@);
    assert(names[9] == "--verbose"@);
    assert(names[10] == "--log-verbose"@);
    assert(names[11] == "--verbosity"@);
    assert(names[12] == "--log-verbosity"@);
}

/// The names of [`rotation_flag`].
pub open spec fn rotation_names() -> Seq<Seq<char>> {
    seq![
        "--rope-freq-base"@,
        "--rope-freq-scale"@,
        "--rope-scale"@,
        "--rope-scaling"@,
        "--yarn-ext-factor"@,
        "--yarn-attn-factor"@,
        "--yarn-beta-fast"@,
        "--yarn-beta-slow"@,
        "--yarn-orig-ctx"@,
    ]
}

fn list_rotation_names() -> (list: Vec<&'static str>)
    ensures
        literals(list@) == rotation_names(),
{
    let list: Vec<&'static str> = vec![
        "--rope-freq-base",
        "--rope-freq-scale",
        "--rope-scale",
        "--rope-scaling",
        "--yarn-ext-factor",
        "--yarn-attn-factor",
        "--yarn-beta-fast",
        "--yarn-beta-slow",
        "--yarn-orig-ctx",
    ];
    assert(literals(list@) =~= rotation_names());
    list
}

proof fn rotation_names_are_its_flags(arg: Seq<char>)
    ensures
        rotation_names().contains(arg) <==> rotation_flag(arg) is Some,
{
    let names = rotation_names();
    assert(names[0] == "--rope-freq-base"@);
    assert(names[1] == "--rope-freq-scale"@);
    assert(names[2] == "--rope-scale"@);
    assert(names[3] == "--rope-scaling"@);
    assert(names[4] == "--yarn-ext-factor"@);
    assert(names[5] == "--yarn-attn-factor"@);
    assert(names[6] == "--yarn-beta-fast"@);
    assert(names[7] == "--yarn-beta-slow"@);
    assert(names[8] == "--yarn-orig-ctx"@);
}

/// The names of [`talking_flag`].
pub open spec fn talking_names() -> Seq<Seq<char>> {
    seq![
        "-i"@,
        "--interactive"@,
        "-if"@,
        "--interactive-first"@,
        "-cnv"@,
        "--conversation"@,
        "--no-conversation"@,
        "-st"@,
        "--single-turn"@,
        "--multiline-input"@,
        "--in-prefix"@,
        "--in-suffix"@,
        "--in-prefix-bos"@,
        "--color"@,
        "-co"@,
        "--simple-io"@,
        "--display-prompt"@,
        "--no-display-prompt"@,
        "--special"@,
        "-sp"@,
        "--print-token-count"@,
        "--verbose-prompt"@,
    ]
}

fn list_talking_names() -> (list: Vec<&'static str>)
    ensures
        literals(list@) == talking_names(),
{
    let list: Vec<&'static str> = vec![
        "-i",
        "--interactive",
        "-if",
        "--interactive-first",
        "-cnv",
        "--conversation",
        "--no-conversation",
        "-st",
        "--single-turn",
        "--multiline-input",
        "--in-prefix",
        "--in-suffix",
        "--in-prefix-bos",
        "--color",
        "-co",
        "--simple-io",
        "--display-prompt",
        "--no-display-prompt",
        "--special",
        "-sp",
        "--print-token-count",
        "--verbose-prompt",
    ];
    assert(literals(list@) =~= talking_names());
    list
}

proof fn talking_names_are_its_flags(arg: Seq<char>)
    ensures
        talking_names().contains(arg) <==> talking_flag(arg) is Some,
{
    let names = talking_names();
    assert(names[0] == "-i"@);
    assert(names[1] == "--interactive"@);
    assert(names[2] == "-if"@);
    assert(names[3] == "--interactive-first"@);
    assert(names[4] == "-cnv"@);
    assert(names[5] == "--conversation"@);
    assert(names[6] == "--no-conversation"@);
    assert(names[7] == "-st"@);
    assert(names[8] == "--single-turn"@);
    assert(names[9] == "--multiline-input"@);
    assert(names[10] == "--in-prefix"@);
    assert(names[11] == "--in-suffix"@);
    assert(names[12] == "--in-prefix-bos"@);
    assert(names[13] == "--color"@);
    assert(names[14] == "-co"@);
    assert(names[15] == "--simple-io"@);
    assert(names[16] == "--display-prompt"@);
    assert(names[17] == "--no-display-prompt"@);
    assert(names[18] == "--special"@);
    assert(names[19] == "-sp"@);
    assert(names[20] == "--print-token-count"@);
    assert(names[21] == "--verbose-prompt"@);
}

/// Every name of a setting, group by group.
pub open spec fn all_names() -> Seq<Seq<char>> {
    sampling_names() + chain_names() + running_names() + prompting_names() + logging_names() + rotation_names() + talking_names()
}

/// Every name of a setting: what a shell completes.
pub fn flag_names() -> (names: Vec<&'static str>)
    ensures
        literals(names@) == all_names(),
{
    let mut names = list_sampling_names();
    let mut more = list_chain_names();
    let ghost sofar = names@;
    let ghost next = more@;
    names.append(&mut more);
    assert(literals(names@) =~= literals(sofar) + literals(next));
    let mut more = list_running_names();
    let ghost sofar = names@;
    let ghost next = more@;
    names.append(&mut more);
    assert(literals(names@) =~= literals(sofar) + literals(next));
    let mut more = list_prompting_names();
    let ghost sofar = names@;
    let ghost next = more@;
    names.append(&mut more);
    assert(literals(names@) =~= literals(sofar) + literals(next));
    let mut more = list_logging_names();
    let ghost sofar = names@;
    let ghost next = more@;
    names.append(&mut more);
    assert(literals(names@) =~= literals(sofar) + literals(next));
    let mut more = list_rotation_names();
    let ghost sofar = names@;
    let ghost next = more@;
    names.append(&mut more);
    assert(literals(names@) =~= literals(sofar) + literals(next));
    let mut more = list_talking_names();
    let ghost sofar = names@;
    let ghost next = more@;
    names.append(&mut more);
    assert(literals(names@) =~= literals(sofar) + literals(next));
    names
}

/// The listing is what the command line accepts: no name is missing from it, and none is
/// in it that would be taken for a prompt.
pub proof fn every_flag_is_listed(arg: Seq<char>)
    ensures
        all_names().contains(arg) <==> flag_named(arg) is Some,
{
    sampling_names_are_its_flags(arg);
    chain_names_are_its_flags(arg);
    running_names_are_its_flags(arg);
    prompting_names_are_its_flags(arg);
    logging_names_are_its_flags(arg);
    rotation_names_are_its_flags(arg);
    talking_names_are_its_flags(arg);
    let a = sampling_names();
    let b = a + chain_names();
    in_either(a, chain_names(), arg);
    let c = b + running_names();
    in_either(b, running_names(), arg);
    let d = c + prompting_names();
    in_either(c, prompting_names(), arg);
    let e = d + logging_names();
    in_either(d, logging_names(), arg);
    let f = e + rotation_names();
    in_either(e, rotation_names(), arg);
    let g = f + talking_names();
    in_either(f, talking_names(), arg);
}

proof fn in_either(a: Seq<Seq<char>>, b: Seq<Seq<char>>, x: Seq<char>)
    ensures
        (a + b).contains(x) <==> a.contains(x) || b.contains(x),
{
    if a.contains(x) {
        let i = choose|i: int| 0 <= i < a.len() && a[i] == x;
        assert((a + b)[i] == x);
    }
    if b.contains(x) {
        let i = choose|i: int| 0 <= i < b.len() && b[i] == x;
        assert((a + b)[a.len() + i] == x);
    }
}

// ------------------------------------------------------------ the whole line

/// One thing the command line says.
#[derive(Debug, Clone)]
pub enum Given {
    /// A flag, as it was spelled and with the argument it takes. There is none where the
    /// line ends early.
    Setting { flag: Flag, name: String, value: Option<String> },
    /// An argument that names no setting.
    Word(String),
}

/// What [`Given`] is about.
pub enum Said {
    Setting { flag: Flag, name: Seq<char>, value: Option<Seq<char>> },
    Word(Seq<char>),
}

impl View for Given {
    type V = Said;

    open spec fn view(&self) -> Said {
        match *self {
            Given::Setting { flag, name, value } => Said::Setting {
                flag,
                name: name@,
                value: match value {
                    Some(v) => Some(v@),
                    None => None,
                },
            },
            Given::Word(w) => Said::Word(w@),
        }
    }
}

/// How many arguments a thing said takes up.
pub open spec fn width(said: Said) -> int {
    match said {
        Said::Setting { value: Some(_), .. } => 2,
        _ => 1,
    }
}

/// What the first of `args` says.
pub open spec fn first_said(args: Seq<Seq<char>>) -> Said {
    match flag_named(args[0]) {
        None => Said::Word(args[0]),
        Some(flag) => Said::Setting {
            flag,
            name: args[0],
            value: if wants_value(flag) && args.len() > 1 {
                Some(args[1])
            } else {
                None
            },
        },
    }
}

/// What a command line says, in order.
pub open spec fn all_said(args: Seq<Seq<char>>) -> Seq<Said>
    decreases args.len(),
{
    if args.len() == 0 {
        Seq::empty()
    } else {
        let first = first_said(args);
        seq![first] + all_said(args.skip(width(first)))
    }
}

/// What things given say.
pub open spec fn said_by(given: Seq<Given>) -> Seq<Said> {
    given.map_values(|g: Given| g@)
}

/// Reads a command line. A flag that takes a value takes the argument behind it even
/// where that looks like a flag.
pub fn read_args(args: &Vec<String>) -> (given: Vec<Given>)
    ensures
        said_by(given@) == all_said(texts(args@)),
{
    let ghost all = texts(args@);
    let mut given: Vec<Given> = Vec::new();
    let mut i: usize = 0;
    assert(all.skip(0) =~= all);
    assert(said_by(given@) + all_said(all) =~= all_said(all));
    while i < args.len()
        invariant
            i <= args@.len(),
            all == texts(args@),
            said_by(given@) + all_said(all.skip(i as int)) == all_said(all),
        decreases args@.len() - i,
    {
        let ghost rest = all.skip(i as int);
        let ghost before = given@;
        assert(rest[0] == args@[i as int]@);
        let (next, taken): (Given, usize) = match flag_of(args[i].as_str()) {
            None => (Given::Word(args[i].clone()), 1),
            Some(flag) => {
                let wants = takes_value(flag);
                let name = args[i].clone();
                if wants && i + 1 < args.len() {
                    assert(rest[1] == args@[i + 1]@);
                    (Given::Setting { flag, name, value: Some(args[i + 1].clone()) }, 2)
                } else {
                    (Given::Setting { flag, name, value: None }, 1)
                }
            },
        };
        assert(next@ == first_said(rest));
        given.push(next);
        proof {
            assert(rest.skip(taken as int) =~= all.skip(i + taken));
            assert(said_by(given@) =~= said_by(before).push(next@));
            assert(all_said(rest) =~= seq![next@] + all_said(all.skip(i + taken)));
            assert(said_by(before) + all_said(rest) =~= said_by(given@) + all_said(
                all.skip(i + taken),
            ));
        }
        i = i + taken;
    }
    assert(all.skip(i as int) =~= Seq::empty());
    assert(said_by(given@) + all_said(all.skip(i as int)) =~= said_by(given@));
    given
}

/// The arguments that things said take up, together.
pub open spec fn total_width(said: Seq<Said>) -> int
    decreases said.len(),
{
    if said.len() == 0 {
        0
    } else {
        width(said[0]) + total_width(said.skip(1))
    }
}

/// Every argument is read, and none twice.
pub proof fn every_argument_is_read_once(args: Seq<Seq<char>>)
    ensures
        total_width(all_said(args)) == args.len(),
    decreases args.len(),
{
    if args.len() > 0 {
        let first = first_said(args);
        every_argument_is_read_once(args.skip(width(first)));
        assert(all_said(args).skip(1) =~= all_said(args.skip(width(first))));
    }
}

/// The argument behind a flag that takes one is its value even where it looks like a
/// flag, and what follows is read as if the two were not there.
pub proof fn a_value_is_not_read_as_a_flag(name: Seq<char>, value: Seq<char>, rest: Seq<Seq<char>>)
    requires
        flag_named(name) matches Some(f) && wants_value(f),
    ensures
        all_said(seq![name, value] + rest) == seq![
            Said::Setting { flag: flag_named(name)->0, name, value: Some(value) },
        ] + all_said(rest),
{
    let args = seq![name, value] + rest;
    assert(args.skip(2) =~= rest);
}

// --------------------------------------------------------------- how to begin

/// What the first argument asks for.
#[derive(Debug, Clone, Copy, PartialEq, Eq, Structural)]
pub enum Opening {
    /// The list of options.
    Usage,
    /// One line on how to call the program.
    ShortUsage,
    Version,
    Completion,
    /// A run; the first argument is the model's path unless it is a flag.
    Run { path_first: bool },
}

/// What the first argument asks for.
pub open spec fn opening_of(first: Option<Seq<char>>) -> Opening {
    match first {
        None => Opening::Usage,
        Some(arg) => {
            if arg == "--usage"@ {
                Opening::ShortUsage
            } else if arg == "--version"@ {
                Opening::Version
            } else if arg == "--help"@ || arg == "-h"@ {
                Opening::Usage
            } else if arg == "--completion-bash"@ {
                Opening::Completion
            } else {
                Opening::Run { path_first: !("-"@.is_prefix_of(arg) && arg != "-"@) }
            }
        },
    }
}

/// What the first argument asks for.
pub fn opening(first: Option<&str>) -> (opening: Opening)
    ensures
        opening == opening_of(
            match first {
                Some(arg) => Some(arg@),
                None => None,
            },
        ),
{
    match first {
        None => Opening::Usage,
        Some(arg) => {
            if same_text(arg, "--usage") {
                Opening::ShortUsage
            } else if same_text(arg, "--version") {
                Opening::Version
            } else if same_text(arg, "--help") || same_text(arg, "-h") {
                Opening::Usage
            } else if same_text(arg, "--completion-bash") {
                Opening::Completion
            } else {
                let flag = starts_with(arg, "-") && !same_text(arg, "-");
                Opening::Run { path_first: !flag }
            }
        },
    }
}

// -------------------------------------------------------------------- values

/// A count that was given, or `otherwise` where none can be read.
pub open spec fn counted(value: Option<Seq<char>>, otherwise: usize) -> int {
    match value {
        Some(text) => match parsed_int(text, 0, usize::MAX as int) {
            Some(n) => n,
            None => otherwise as int,
        },
        None => otherwise as int,
    }
}

/// A count of at least `least`, if one was given.
pub open spec fn counted_from(value: Option<Seq<char>>, least: usize) -> Option<int> {
    match value {
        Some(text) => match parsed_int(text, 0, usize::MAX as int) {
            Some(n) => if n >= least {
                Some(n)
            } else {
                None
            },
            None => None,
        },
        None => None,
    }
}

/// A count, or `otherwise` where none can be read.
pub fn count_or(value: Option<&str>, otherwise: usize) -> (n: usize)
    ensures
        n == counted(
            match value {
                Some(text) => Some(text@),
                None => None,
            },
            otherwise,
        ),
{
    match value {
        Some(text) => match parse_unsigned(text, usize::MAX as u64) {
            Some(n) => n as usize,
            None => otherwise,
        },
        None => otherwise,
    }
}

/// A count of at least `least`; a smaller one counts as none.
pub fn count_from(value: Option<&str>, least: usize) -> (n: Option<usize>)
    ensures
        ({
            let want = counted_from(
                match value {
                    Some(text) => Some(text@),
                    None => None,
                },
                least,
            );
            match n {
                Some(n) => want == Some(n as int),
                None => want is None,
            }
        }),
{
    match value {
        Some(text) => match parse_unsigned(text, usize::MAX as u64) {
            Some(n) => if n as usize >= least {
                Some(n as usize)
            } else {
                None
            },
            None => None,
        },
        None => None,
    }
}

/// Where the sign of a bias stands: the first `+` or `-`.
pub open spec fn is_sign_at(text: Seq<char>, i: int) -> bool {
    &&& 0 <= i < text.len()
    &&& text[i] == '+' || text[i] == '-'
    &&& forall|j: int| 0 <= j < i ==> (#[trigger] text[j]) != '+' && text[j] != '-'
}

/// Reads `ID+BIAS` or `ID-BIAS` into the token and the bias with its sign.
pub fn bias_parts(text: &str) -> (parts: Option<(u32, String)>)
    ensures
        match parts {
            Some((id, bias)) => exists|i: int|
                is_sign_at(text@, i) && parsed_int(text@.take(i), 0, u32::MAX as int) == Some(
                    id as int,
                ) && bias@ == text@.skip(i),
            None => forall|i: int| #[trigger]
                is_sign_at(text@, i) ==> parsed_int(text@.take(i), 0, u32::MAX as int) is None,
        },
{
    let chars = chars_of(text);
    let mut i: usize = 0;
    while i < chars.len()
        invariant
            i <= chars@.len(),
            chars@ == text@,
            forall|j: int| 0 <= j < i ==> (#[trigger] chars@[j]) != '+' && chars@[j] != '-',
        decreases chars@.len() - i,
    {
        if chars[i] == '+' || chars[i] == '-' {
            let id = text_between(&chars, 0, i);
            let bias = text_between(&chars, i, chars.len());
            assert(is_sign_at(text@, i as int));
            assert(id@ =~= text@.take(i as int));
            assert(bias@ =~= text@.skip(i as int));
            assert forall|k: int| #[trigger] is_sign_at(text@, k) implies k == i by {}
            return match parse_unsigned(id.as_str(), u32::MAX as u64) {
                Some(n) => Some((n as u32, bias)),
                None => None,
            };
        }
        i = i + 1;
    }
    assert forall|k: int| is_sign_at(text@, k) implies false by {
        assert(text@[k] == chars@[k]);
    }
    None
}

/// The prompt after one more argument that names no setting: the first such argument
/// is the prompt, unless there is one already.
pub open spec fn with_word(prompt: Seq<char>, word: Seq<char>) -> Seq<char> {
    if prompt.len() == 0 {
        word
    } else {
        prompt
    }
}

/// The prompt after one more argument that names no setting.
pub fn take_word(prompt: String, word: String) -> (out: String)
    ensures
        out@ == with_word(prompt@, word@),
{
    let empty = same_text(prompt.as_str(), "");
    proof {
        reveal_strlit("");
        assert(prompt@.len() == 0 ==> prompt@ =~= ""@);
    }
    if empty {
        word
    } else {
        prompt
    }
}

/// The prompt as it is run: one of its own where none was given, and with its backslash
/// escapes read unless they are to be taken literally.
pub open spec fn final_prompt(prompt: Seq<char>, escape: bool) -> Seq<char> {
    let text = with_word(prompt, "The capital of France is"@);
    if escape {
        unescaped(text)
    } else {
        text
    }
}

/// The prompt as it is run.
pub fn finish_prompt(prompt: String, escape: bool) -> (out: String)
    ensures
        out@ == final_prompt(prompt@, escape),
{
    let text = take_word(prompt, copied("The capital of France is"));
    if escape {
        unescape(text.as_str())
    } else {
        text
    }
}

} // verus!
