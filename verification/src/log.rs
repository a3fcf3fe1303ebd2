//! Status lines: which are shown, how they read, and where they go.
//!
//! Status is diagnostics and not output, so it never goes where the generated text does.
use crate::chat::copied;
use vstd::prelude::*;

verus! {

/// How loud, and where to.
#[derive(Debug, Clone)]
pub struct LogConfig {
    /// 0 silences everything, 1 is the normal header, 2 and above adds detail.
    pub verbosity: u32,
    /// Every line begins with seconds since start.
    pub timestamps: bool,
    /// Every line begins with its level.
    pub prefix: bool,
    /// Append to this file instead of the terminal.
    pub file: Option<String>,
    /// Colour the lines by level, on a terminal only.
    pub colors: bool,
}

impl Default for LogConfig {
    fn default() -> (config: Self)
        ensures
            config.verbosity == 1,
            !config.timestamps,
            !config.prefix,
            config.file is None,
            !config.colors,
    {
        LogConfig { verbosity: 1, timestamps: false, prefix: false, file: None, colors: false }
    }
}

/// The verbosity in force: 1 until something is configured.
pub open spec fn verbosity_of(config: Option<LogConfig>) -> u32 {
    match config {
        Some(c) => c.verbosity,
        None => 1,
    }
}

/// Where a line goes.
#[derive(Debug, Clone, Copy, PartialEq, Eq, Structural)]
pub enum Sink {
    Terminal,
    File,
}

/// How a line reads before any colour.
pub open spec fn plain_line(
    config: Option<LogConfig>,
    level: u32,
    stamp: Seq<char>,
    message: Seq<char>,
) -> Seq<char> {
    match config {
        None => message,
        Some(c) => (if c.timestamps {
            stamp
        } else {
            Seq::empty()
        }) + (if c.prefix {
            if level >= 2 {
                "D "@
            } else {
                "I "@
            }
        } else {
            Seq::empty()
        }) + message,
    }
}

/// How a line reads and where it goes: coloured on a terminal where that is asked for,
/// never in a file.
pub open spec fn shown_line(
    config: Option<LogConfig>,
    file_open: bool,
    level: u32,
    stamp: Seq<char>,
    message: Seq<char>,
) -> (Sink, Seq<char>) {
    let line = plain_line(config, level, stamp, message);
    if config is Some && file_open {
        (Sink::File, line)
    } else if config is Some && config->0.colors {
        (
            Sink::Terminal,
            "\x1b["@ + (if level >= 2 {
                "2"@
            } else {
                "36"@
            }) + "m"@ + line + "\x1b[0m"@,
        )
    } else {
        (Sink::Terminal, line)
    }
}

/// The log of a program.
pub struct Log {
    pub config: Option<LogConfig>,
}

impl Log {
    pub fn new() -> (log: Self)
        ensures
            log.config is None,
    {
        Log { config: None }
    }
}

/// Installs a configuration. The first wins; a second is ignored.
pub fn configure(state: &mut Log, config: LogConfig) -> (installed: bool)
    ensures
        installed == (old(state).config is None),
        final(state).config == (if installed {
            Some(config)
        } else {
            old(state).config
        }),
{
    if state.config.is_none() {
        state.config = Some(config);
        true
    } else {
        false
    }
}

/// Whether a message at `level` would be shown, so that one that is costly to build
/// need not be.
pub fn enabled(state: &Log, level: u32) -> (yes: bool)
    ensures
        yes == (verbosity_of(state.config) >= level),
{
    match &state.config {
        Some(c) => c.verbosity >= level,
        None => 1 >= level,
    }
}

/// What one status line comes to, `stamp` being the time and `file_open` whether the
/// log file could be opened; nothing where the level is not shown.
pub fn log(state: &Log, level: u32, stamp: &str, message: &str, file_open: bool) -> (line: Option<
    (Sink, String),
>)
    ensures
        match line {
            Some((sink, text)) => verbosity_of(state.config) >= level && (sink, text@)
                == shown_line(state.config, file_open, level, stamp@, message@),
            None => verbosity_of(state.config) < level,
        },
{
    let shown = enabled(state, level);
    if !shown {
        return None;
    }
    match &state.config {
        None => Some((Sink::Terminal, copied(message))),
        Some(c) => {
            let mut line = String::new();
            if c.timestamps {
                line.append(stamp);
            }
            if c.prefix {
                if level >= 2 {
                    line.append("D ");
                } else {
                    line.append("I ");
                }
            }
            line.append(message);
            assert(line@ =~= plain_line(state.config, level, stamp@, message@));
            if file_open {
                return Some((Sink::File, line));
            }
            if !c.colors {
                return Some((Sink::Terminal, line));
            }
            let mut text = copied("\x1b[");
            if level >= 2 {
                text.append("2");
            } else {
                text.append("36");
            }
            text.append("m");
            text.append(line.as_str());
            text.append("\x1b[0m");
            Some((Sink::Terminal, text))
        },
    }
}

/// Escape codes never reach a file.
pub proof fn files_are_never_coloured(
    config: LogConfig,
    level: u32,
    stamp: Seq<char>,
    message: Seq<char>,
)
    ensures
        shown_line(Some(config), true, level, stamp, message) == (
            Sink::File,
            plain_line(Some(config), level, stamp, message),
        ),
{
}

} // verus!
