//! What is logged, and what it looks like.

use vstd::prelude::*;

verus! {

/// How serious a message is.
#[derive(Clone, Copy, PartialEq, Eq, Structural, Debug)]
pub enum Level {
    Error,
    Warn,
    Info,
    Debug,
    Trace,
}

/// The least serious messages that are logged.
#[derive(Clone, Copy, PartialEq, Eq, Structural, Debug)]
pub enum LevelFilter {
    Error,
    Debug,
}

/// The place of a level, the most serious first.
pub open spec fn verbosity(level: Level) -> int {
    match level {
        Level::Error => 1,
        Level::Warn => 2,
        Level::Info => 3,
        Level::Debug => 4,
        Level::Trace => 5,
    }
}

/// The place of the last level that passes a filter.
pub open spec fn limit(filter: LevelFilter) -> int {
    match filter {
        LevelFilter::Error => 1,
        LevelFilter::Debug => 4,
    }
}

/// Compares a `log::Level` with a `log::LevelFilter` by `<=`. That order goes by the places of the
/// levels, from the most serious on, and a filter has the place of the level it is named after.
#[verifier::external_body]
fn passes(level: Level, filter: LevelFilter) -> (within: bool)
    ensures
        within == (verbosity(level) <= limit(filter)),
{
    let level = match level {
        Level::Error => log::Level::Error,
        Level::Warn => log::Level::Warn,
        Level::Info => log::Level::Info,
        Level::Debug => log::Level::Debug,
        Level::Trace => log::Level::Trace,
    };
    let filter = match filter {
        LevelFilter::Error => log::LevelFilter::Error,
        LevelFilter::Debug => log::LevelFilter::Debug,
    };
    level <= filter
}

/// How messages are logged.
pub struct Logger {
    level_filter: LevelFilter,
    is_term: bool,
}

/// The digit of a number below ten.
pub open spec fn digit(n: nat) -> char {
    ('0' as u32 + n) as char
}

/// A number in decimal digits.
pub open spec fn decimal(n: nat) -> Seq<char>
    decreases n,
{
    if n < 10 {
        seq![digit(n)]
    } else {
        decimal(n / 10).push(digit(n % 10))
    }
}

/// So many spaces.
pub open spec fn spaces(n: nat) -> Seq<char> {
    Seq::new(n, |i: int| ' ')
}

/// A text at the right end of a column. One that is too wide for it sticks out.
pub open spec fn aligned(text: Seq<char>, width: nat) -> Seq<char> {
    if text.len() < width {
        spaces((width - text.len()) as nat) + text
    } else {
        text
    }
}

/// The width of the column that the time is in.
pub const TIME_WIDTH: usize = 10;

/// What stands for a level, colored where a terminal shows it.
pub open spec fn label(level: Level, is_term: bool) -> Seq<char> {
    if is_term {
        match level {
            Level::Error => "\x1b[31m[ERROR]\x1b[0m"@,
            Level::Warn => "\x1b[33m[WARN]\x1b[0m "@,
            Level::Info => "\x1b[32m[INFO]\x1b[0m "@,
            Level::Debug | Level::Trace => "\x1b[36m[DEBUG]\x1b[0m"@,
        }
    } else {
        match level {
            Level::Error => "[ERROR]"@,
            Level::Warn => "[WARN] "@,
            Level::Info => "[INFO] "@,
            Level::Debug | Level::Trace => "[DEBUG]"@,
        }
    }
}

/// Whether messages of a level pass a filter.
pub open spec fn is_logged(level: Level, filter: LevelFilter) -> bool {
    verbosity(level) <= limit(filter)
}

/// What is written for a message, if its level is logged.
pub open spec fn written(
    filter: LevelFilter,
    time: u128,
    level: Level,
    is_term: bool,
    message: Seq<char>,
) -> Option<Seq<char>> {
    if is_logged(level, filter) {
        Some(line(time, level, is_term, message))
    } else {
        None
    }
}

/// A line of the log: the time since the start in milliseconds, the level, and the message.
pub open spec fn line(time: u128, level: Level, is_term: bool, message: Seq<char>) -> Seq<char> {
    aligned(decimal(time as nat), TIME_WIDTH as nat) + "ms "@ + label(level, is_term) + " "@
        + message + "\n"@
}

fn digit_text(n: u128) -> (text: &'static str)
    requires
        n < 10,
    ensures
        text@ == seq![digit(n as nat)],
{
    proof {
        reveal_strlit("0");
        reveal_strlit("1");
        reveal_strlit("2");
        reveal_strlit("3");
        reveal_strlit("4");
        reveal_strlit("5");
        reveal_strlit("6");
        reveal_strlit("7");
        reveal_strlit("8");
        reveal_strlit("9");
    }
    let text = match n {
        0 => "0",
        1 => "1",
        2 => "2",
        3 => "3",
        4 => "4",
        5 => "5",
        6 => "6",
        7 => "7",
        8 => "8",
        _ => "9",
    };
    assert(text@ =~= seq![digit(n as nat)]);
    text
}

/// A number in decimal digits.
fn decimal_text(n: u128) -> (text: String)
    ensures
        text@ == decimal(n as nat),
{
    let mut text = digit_text(n % 10).to_owned();
    let mut rest: u128 = n / 10;
    while rest > 0
        invariant
            decimal(n as nat) == if rest == 0 {
                text@
            } else {
                decimal(rest as nat) + text@
            },
        decreases rest,
    {
        let ghost before = text@;
        let first = digit_text(rest % 10);
        text = first.to_owned().concat(text.as_str());
        assert(rest >= 10 ==> decimal((rest / 10) as nat).push(digit((rest % 10) as nat)) + before
            =~= decimal((rest / 10) as nat) + text@);
        rest = rest / 10;
    }
    text
}

/// A text at the right end of a column.
fn aligned_text(text: String, width: usize) -> (column: String)
    ensures
        column@ == aligned(text@, width as nat),
{
    proof {
        reveal_strlit(" ");
    }
    let ghost whole = text@;
    let mut column = text;
    let ghost mut added: nat = 0;
    assert(column@ =~= spaces(0) + whole);
    while column.as_str().unicode_len() < width
        invariant
            column@ == spaces(added) + whole,
            column@.len() <= width || added == 0,
            " "@ =~= seq![' '],
        decreases width - column@.len(),
    {
        column = " ".to_owned().concat(column.as_str());
        proof {
            assert(column@ =~= spaces(added + 1) + whole);
            added = added + 1;
        }
    }
    column
}

impl Logger {
    /// The least serious messages that are logged.
    pub closed spec fn filter(&self) -> LevelFilter {
        self.level_filter
    }

    /// Whether the log goes to a terminal.
    pub closed spec fn terminal(&self) -> bool {
        self.is_term
    }

    /// The least serious messages that are logged.
    pub fn level_filter(&self) -> (filter: LevelFilter)
        ensures
            filter == self.filter(),
    {
        self.level_filter
    }

    /// Whether messages of a level are logged.
    pub fn enabled(&self, level: Level) -> (enabled: bool)
        ensures
            enabled == (verbosity(level) <= limit(self.filter())),
            enabled == is_logged(level, self.filter()),
    {
        passes(level, self.level_filter)
    }

    /// The line to write for a message that comes `time` milliseconds after the start, or nothing
    /// where its level is not logged.
    pub fn log(&self, time: u128, level: Level, message: &str) -> (logged: Option<String>)
        ensures
            logged is Some <==> verbosity(level) <= limit(self.filter()),
            logged matches Some(text) ==> text@ == line(time, level, self.terminal(), message@),
            written(self.filter(), time, level, self.terminal(), message@) == match logged {
                Some(text) => Some(text@),
                None => None,
            },
    {
        if !self.enabled(level) {
            return None;
        }
        let shown = if self.is_term {
            match level {
                Level::Error => "\x1b[31m[ERROR]\x1b[0m",
                Level::Warn => "\x1b[33m[WARN]\x1b[0m ",
                Level::Info => "\x1b[32m[INFO]\x1b[0m ",
                Level::Debug | Level::Trace => "\x1b[36m[DEBUG]\x1b[0m",
            }
        } else {
            match level {
                Level::Error => "[ERROR]",
                Level::Warn => "[WARN] ",
                Level::Info => "[INFO] ",
                Level::Debug | Level::Trace => "[DEBUG]",
            }
        };
        let time_text = aligned_text(decimal_text(time), TIME_WIDTH);
        Some(time_text.concat("ms ").concat(shown).concat(" ").concat(message).concat("\n"))
    }
}

/// The least serious messages that a logger logs, by whether it is to be quiet.
pub open spec fn filter_for(quiet: bool) -> LevelFilter {
    if quiet {
        LevelFilter::Error
    } else {
        LevelFilter::Debug
    }
}

/// Makes the logger: a quiet one logs errors alone, any other everything down to debugging.
pub fn make_logger(quiet: bool, is_term: bool) -> (logger: Logger)
    ensures
        logger.filter() == filter_for(quiet),
        logger.terminal() == is_term,
{
    let level_filter = if quiet {
        LevelFilter::Error
    } else {
        LevelFilter::Debug
    };
    Logger { level_filter, is_term }
}

/// Without colors, all levels take the same room.
pub proof fn law_labels_line_up(level: Level)
    ensures
        label(level, false).len() == 7,
{
    reveal_strlit("[ERROR]");
    reveal_strlit("[WARN] ");
    reveal_strlit("[INFO] ");
    reveal_strlit("[DEBUG]");
}

/// A quiet logger logs errors alone; any other logs everything but traces.
pub proof fn law_what_is_logged(level: Level)
    ensures
        verbosity(level) <= limit(LevelFilter::Error) <==> level is Error,
        verbosity(level) <= limit(LevelFilter::Debug) <==> level !is Trace,
        is_logged(level, filter_for(true)) <==> level is Error,
        is_logged(level, filter_for(false)) <==> level !is Trace,
{
}

/// What is logged does not depend on when it comes, on what it says, or on where it goes: an error
/// always is, a trace never, and everything else unless the logger is quiet.
pub proof fn law_messages_are_written_by_their_level(
    quiet: bool,
    time: u128,
    level: Level,
    is_term: bool,
    message: Seq<char>,
)
    ensures
        written(filter_for(quiet), time, level, is_term, message) is Some <==> {
            ||| level is Error
            ||| !quiet && level !is Trace
        },
        written(filter_for(quiet), time, level, is_term, message) matches Some(text) ==> text
            == line(time, level, is_term, message),
{
}

/// The number that decimal digits stand for.
pub open spec fn value(text: Seq<char>) -> int
    decreases text.len(),
{
    if text.len() == 0 {
        0
    } else {
        10 * value(text.drop_last()) + (text.last() as u32 - '0' as u32)
    }
}

/// A number is written in digits that stand for it, without zeros in front.
pub proof fn law_numbers_are_written_in_digits(n: nat)
    ensures
        value(decimal(n)) == n,
        decimal(n).len() > 0,
        forall|i: int| 0 <= i < decimal(n).len() ==> '0' <= #[trigger] decimal(n)[i] <= '9',
        n > 0 ==> decimal(n)[0] != '0',
        n == 0 ==> decimal(n).len() == 1,
    decreases n,
{
    if n < 10 {
        assert(decimal(n).drop_last() =~= Seq::empty());
        assert(value(Seq::<char>::empty()) == 0);
    } else {
        law_numbers_are_written_in_digits(n / 10);
        assert(decimal(n).drop_last() =~= decimal(n / 10));
        assert(decimal(n)[0] == decimal(n / 10)[0]);
    }
}

/// How many spaces are in front of a text in a column.
pub open spec fn indent(length: nat, width: nat) -> nat {
    if length < width {
        (width - length) as nat
    } else {
        0
    }
}

/// A line begins with the time, which ends at the tenth place if it is not longer than that. Then
/// come the unit, what stands for the level, and the message, and nothing but the end of the line.
pub proof fn law_lines(time: u128, level: Level, is_term: bool, message: Seq<char>)
    ensures
        ({
            let text = line(time, level, is_term, message);
            let digits = decimal(time as nat);
            let from = indent(digits.len(), 10) as int;
            let unit = from + digits.len();
            let shown = unit + 3;
            let said = shown + label(level, is_term).len() + 1;
            &&& forall|i: int| 0 <= i < from ==> #[trigger] text[i] == ' '
            &&& text.subrange(from, unit) == digits
            &&& text.subrange(unit, shown) == "ms "@
            &&& text.subrange(shown, said - 1) == label(level, is_term)
            &&& text[said - 1] == ' '
            &&& text.subrange(said, said + message.len()) == message
            &&& text.len() == said + message.len() + 1
            &&& text.last() == '\n'
        }),
{
    reveal_strlit("ms ");
    reveal_strlit(" ");
    reveal_strlit("\n");
    let text = line(time, level, is_term, message);
    let digits = decimal(time as nat);
    let from = indent(digits.len(), 10) as int;
    let unit = from + digits.len();
    let shown = unit + 3;
    let said = shown + label(level, is_term).len() + 1;
    assert(aligned(digits, 10).len() == unit);
    assert(text.subrange(from, unit) =~= digits);
    assert(text.subrange(unit, shown) =~= "ms "@);
    assert(text.subrange(shown, said - 1) =~= label(level, is_term));
    assert(text.subrange(said, said + message.len()) =~= message);
}

/// What stands for a level on a terminal is what stands for it elsewhere, between the codes that
/// begin and end its color. Levels that are shown differently are colored differently.
pub proof fn law_colors(level: Level)
    ensures
        ({
            let plain = label(level, false);
            let colored = label(level, true);
            let word = if plain.last() == ' ' {
                plain.drop_last()
            } else {
                plain
            };
            let end = 5 + word.len() as int;
            &&& colored.take(3) == "\x1b[3"@
            &&& colored[3] == match level {
                Level::Error => '1',
                Level::Warn => '3',
                Level::Info => '2',
                Level::Debug | Level::Trace => '6',
            }
            &&& colored[4] == 'm'
            &&& colored.subrange(5, end) == word
            &&& colored.subrange(end, end + 4) == "\x1b[0m"@
            &&& colored.skip(end + 4) == plain.skip(word.len() as int)
        }),
{
    reveal_strlit("\x1b[3");
    reveal_strlit("\x1b[0m");
    reveal_strlit("[ERROR]");
    reveal_strlit("[WARN] ");
    reveal_strlit("[INFO] ");
    reveal_strlit("[DEBUG]");
    reveal_strlit("\x1b[31m[ERROR]\x1b[0m");
    reveal_strlit("\x1b[33m[WARN]\x1b[0m ");
    reveal_strlit("\x1b[32m[INFO]\x1b[0m ");
    reveal_strlit("\x1b[36m[DEBUG]\x1b[0m");
    let plain = label(level, false);
    let colored = label(level, true);
    let word = if plain.last() == ' ' {
        plain.drop_last()
    } else {
        plain
    };
    let end = 5 + word.len() as int;
    assert(colored.take(3) =~= "\x1b[3"@);
    assert(colored.subrange(5, end) =~= word);
    assert(colored.subrange(end, end + 4) =~= "\x1b[0m"@);
    assert(colored.skip(end + 4) =~= plain.skip(word.len() as int));
}

/// What stands for a level tells it: different levels are shown differently, but for traces, which
/// are shown like what is for debugging.
pub proof fn law_levels_can_be_told_apart(a: Level, b: Level, is_term: bool)
    ensures
        label(a, is_term) == label(b, is_term) <==> (a == b || (verbosity(a) >= 4 && verbosity(b)
            >= 4)),
{
    reveal_strlit("[ERROR]");
    reveal_strlit("[WARN] ");
    reveal_strlit("[INFO] ");
    reveal_strlit("[DEBUG]");
    law_colors(a);
    law_colors(b);
    if label(a, false) == label(b, false) {
        assert(label(a, false)[1] == label(b, false)[1]);
    }
    if label(a, true) == label(b, true) {
        assert(label(a, true)[3] == label(b, true)[3]);
    }
}

} // verus!
