use vstd::prelude::*;
use crate::level::{Level, Metadata};
use crate::text::{
    decimal, digit, indent_char, indented, push_char, signed_decimal, signed_text, unsigned_text,
};

verus! {

/// A calendar date and clock time.
#[derive(Clone, Copy, Debug, PartialEq, Eq, Structural)]
pub struct DateTime {
    pub year: i32,
    pub month: u8,
    pub day: u8,
    pub hour: u8,
    pub minute: u8,
    pub second: u8,
}

/// The date and time, at `offset_seconds` east of UTC, of the instant
/// `unix_nanos` nanoseconds after the Unix epoch; nothing where the offset or
/// the date lies outside what the calendar supports.
pub uninterp spec fn civil_time(unix_nanos: int, offset_seconds: int) -> Option<DateTime>;

/// Relies on time's `UtcOffset::from_whole_seconds`,
/// `OffsetDateTime::from_unix_timestamp_nanos` and
/// `OffsetDateTime::checked_to_offset`, and on the date and clock getters of
/// the result: calendar conversion of an instant at a fixed offset.
#[verifier::external_body]
pub(crate) fn civil_time_at(unix_nanos: i128, offset_seconds: i32) -> (r: Option<DateTime>)
    ensures
        r == civil_time(unix_nanos as int, offset_seconds as int),
{
    let offset = time::UtcOffset::from_whole_seconds(offset_seconds).ok()?;
    let utc = time::OffsetDateTime::from_unix_timestamp_nanos(unix_nanos).ok()?;
    let t = utc.checked_to_offset(offset)?;
    Some(DateTime {
        year: t.year(),
        month: t.month() as u8,
        day: t.day(),
        hour: t.hour(),
        minute: t.minute(),
        second: t.second(),
    })
}

pub open spec fn level_icon(level: Level) -> char {
    match level {
        Level::Trace => '→',
        Level::Debug => '○',
        Level::Info => '●',
        Level::Warn => '⚠',
        Level::Error => '✘',
    }
}

pub open spec fn level_tag(level: Level) -> Seq<char> {
    match level {
        Level::Trace => seq!['t', 'r', 'a', 'c', 'e'],
        Level::Debug => seq!['d', 'e', 'b', 'u', 'g'],
        Level::Info => seq!['i', 'n', 'f', 'o'],
        Level::Warn => seq!['w', 'a', 'r', 'n'],
        Level::Error => seq!['e', 'r', 'r', 'o', 'r'],
    }
}

/// The digit of the level's terminal color.
pub open spec fn level_color(level: Level) -> char {
    match level {
        Level::Trace => '4',
        Level::Debug => '6',
        Level::Info => '2',
        Level::Warn => '3',
        Level::Error => '1',
    }
}

/// The levels whose tag is one character shorter than the others.
pub open spec fn is_short_level(level: Level) -> bool {
    level == Level::Info || level == Level::Warn
}

/// A control sequence: escape, `[`, then `s`.
pub open spec fn esc(s: Seq<char>) -> Seq<char> {
    seq!['\x1b', '['] + s
}

pub open spec fn if_on(b: bool, s: Seq<char>) -> Seq<char> {
    if b {
        s
    } else {
        Seq::empty()
    }
}

/// The sequence that resets all colors and styles.
pub open spec fn full_reset() -> Seq<char> {
    esc(seq!['m'])
}

/// The path with each `::`, taken from the left, replaced by `/`.
pub open spec fn slashed(p: Seq<char>) -> Seq<char>
    decreases p.len(),
{
    if p.len() == 0 {
        Seq::empty()
    } else if p.len() >= 2 && p[0] == ':' && p[1] == ':' {
        seq!['/'] + slashed(p.skip(2))
    } else {
        seq![p[0]] + slashed(p.skip(1))
    }
}

/// The optional alignment space, the icon and the tag, with a space after each.
pub open spec fn head_text(level: Level, align: bool, color: bool) -> Seq<char> {
    let code = level_color(level);
    if_on(align && is_short_level(level), seq![' ']) + if_on(color, esc(seq!['9', code, 'm']))
        + seq![level_icon(level), ' '] + if_on(color, esc(seq!['1', ';', '4', 'm'])) + level_tag(
        level,
    ) + if_on(color, esc(seq![';', '3', code, 'm'])) + seq![' ']
}

pub open spec fn line_text(line: Option<u32>, color: bool) -> Seq<char> {
    match line {
        Some(n) => if_on(color, esc(seq!['2', 'm'])) + seq![':'] + decimal(n as nat),
        None => Seq::empty(),
    }
}

/// A number below 100 with at least two digits.
pub open spec fn two_digits(n: nat) -> Seq<char> {
    if n < 10 {
        seq!['0'] + decimal(n)
    } else {
        decimal(n)
    }
}

/// `h:mm:ss-AM-y/m/d` or `h:mm:ss-PM-y/m/d`, the hour on a twelve-hour clock
/// (from 1 to 12, midnight and noon both showing 12).
pub open spec fn clock_text(t: DateTime) -> Seq<char> {
    let hour: nat = if t.hour == 0 {
        12
    } else if t.hour > 12 {
        (t.hour - 12) as nat
    } else {
        t.hour as nat
    };
    let half = if t.hour >= 12 {
        'P'
    } else {
        'A'
    };
    decimal(hour) + seq![':'] + two_digits(t.minute as nat) + seq![':'] + two_digits(
        t.second as nat,
    ) + seq!['-', half, 'M', '-'] + signed_decimal(t.year as int) + seq!['/'] + decimal(
        t.month as nat,
    ) + seq!['/'] + decimal(t.day as nat)
}

pub open spec fn time_text(time: Option<DateTime>, color: bool) -> Seq<char> {
    match time {
        Some(t) => seq![' '] + if_on(color, esc(seq![';', '2', 'm'])) + clock_text(t),
        None => Seq::empty(),
    }
}

/// The whole prefix of a record.
pub open spec fn prefix_text(
    level: Level,
    module: Seq<char>,
    line: Option<u32>,
    align: bool,
    color: bool,
    time: Option<DateTime>,
) -> Seq<char> {
    head_text(level, align, color) + slashed(module) + line_text(line, color) + time_text(
        time,
        color,
    ) + if_on(color, full_reset())
}

/// How a prefix is laid out.
pub struct PrefixOptions {
    /// Pad the shorter level tags so that columns line up.
    pub align: bool,
    /// The time to show, if any.
    pub time: Option<DateTime>,
}

/// Renders records and events as text.
pub struct Logger {
    /// Whether to write terminal color sequences.
    pub color: bool,
    /// The time zone that timestamps are shown in, in seconds east of UTC.
    pub timezone: i32,
}

fn push_text(out: &mut String, s: &str)
    ensures
        final(out)@ == old(out)@ + s@,
{
    out.append(s);
}

fn level_parts(level: Level) -> (r: (char, &'static str, char))
    ensures
        r.0 == level_icon(level),
        r.1@ == level_tag(level),
        r.2 == level_color(level),
{
    proof {
        reveal_strlit("trace");
        reveal_strlit("debug");
        reveal_strlit("info");
        reveal_strlit("warn");
        reveal_strlit("error");
    }
    match level {
        Level::Trace => ('→', "trace", '4'),
        Level::Debug => ('○', "debug", '6'),
        Level::Info => ('●', "info", '2'),
        Level::Warn => ('⚠', "warn", '3'),
        Level::Error => ('✘', "error", '1'),
    }
}

fn push_head(out: &mut String, level: Level, align: bool, color: bool)
    ensures
        final(out)@ == old(out)@ + head_text(level, align, color),
{
    let ghost start = out@;
    let (icon, tag, code) = level_parts(level);
    let short = match level {
        Level::Info | Level::Warn => true,
        _ => false,
    };
    if align && short {
        push_char(out, ' ');
    }
    let ghost s1 = out@;
    if color {
        proof {
            reveal_strlit("\x1b[9");
        }
        push_text(out, "\x1b[9");
        push_char(out, code);
        push_char(out, 'm');
        assert(out@ =~= s1 + esc(seq!['9', code, 'm']));
    }
    push_char(out, icon);
    push_char(out, ' ');
    let ghost s2 = out@;
    if color {
        proof {
            reveal_strlit("\x1b[1;4m");
        }
        push_text(out, "\x1b[1;4m");
        assert(out@ =~= s2 + esc(seq!['1', ';', '4', 'm']));
    }
    push_text(out, tag);
    let ghost s3 = out@;
    if color {
        proof {
            reveal_strlit("\x1b[;3");
        }
        push_text(out, "\x1b[;3");
        push_char(out, code);
        push_char(out, 'm');
        assert(out@ =~= s3 + esc(seq![';', '3', code, 'm']));
    }
    push_char(out, ' ');
    assert(out@ =~= start + head_text(level, align, color));
}

/// The text still owed for the path once `i` of its characters are read,
/// where `pending` says that the last of them was a `:` not yet written.
spec fn module_rest(p: Seq<char>, i: int, pending: bool) -> Seq<char> {
    if pending {
        seq![':'] + p.skip(i)
    } else {
        p.skip(i)
    }
}

fn push_module(out: &mut String, path: &str)
    ensures
        final(out)@ == old(out)@ + slashed(path@),
{
    let ghost p = path@;
    let ghost start = out@;
    let mut pending: bool = false;
    assert(p.skip(0) =~= p);
    for c in it: path.chars()
        invariant
            it.seq() == p,
            start + slashed(p) == out@ + slashed(module_rest(p, it.index() as int, pending)),
    {
        let ghost i = it.index() as int;
        let ghost r = p.skip(i + 1);
        assert(c == p[i]);
        assert(p.skip(i) =~= seq![c] + r);
        assert((seq![c] + r).skip(1) =~= r);
        if pending {
            let ghost x = seq![':'] + p.skip(i);
            if c == ':' {
                assert(x.skip(2) =~= r);
                push_char(out, '/');
                pending = false;
                assert(out@ + slashed(r) =~= out@.drop_last() + slashed(x));
            } else {
                assert(x.skip(1) =~= p.skip(i));
                assert(x[1] == c);
                assert(slashed(x) == seq![':'] + slashed(p.skip(i)));
                assert(slashed(p.skip(i)) == seq![c] + slashed(r));
                push_char(out, ':');
                push_char(out, c);
                pending = false;
                assert(out@ + slashed(r) =~= out@.drop_last().drop_last() + slashed(x));
            }
        } else {
            if c == ':' {
                pending = true;
                assert(module_rest(p, i + 1, true) =~= p.skip(i));
            } else {
                push_char(out, c);
                assert(out@ + slashed(r) =~= out@.drop_last() + slashed(p.skip(i)));
            }
        }
    }
    assert(p.skip(p.len() as int) =~= Seq::<char>::empty());
    if pending {
        let ghost x = seq![':'];
        assert(x.skip(1) =~= Seq::<char>::empty());
        assert(slashed(Seq::<char>::empty()) == Seq::<char>::empty());
        push_char(out, ':');
        assert(slashed(x) =~= seq![':']);
    }
    assert(start + slashed(p) =~= out@);
}

fn push_line(out: &mut String, line: Option<u32>, color: bool)
    ensures
        final(out)@ == old(out)@ + line_text(line, color),
{
    let ghost start = out@;
    if let Some(n) = line {
        if color {
            proof {
                reveal_strlit("\x1b[2m");
            }
            push_text(out, "\x1b[2m");
        }
        assert(out@ =~= start + if_on(color, esc(seq!['2', 'm'])));
        push_char(out, ':');
        let digits = unsigned_text(n as u128);
        push_text(out, digits.as_str());
        assert(out@ =~= start + line_text(line, color));
    } else {
        assert(out@ =~= start + line_text(line, color));
    }
}

fn push_two_digits(out: &mut String, n: u8)
    ensures
        final(out)@ == old(out)@ + two_digits(n as nat),
{
    let ghost start = out@;
    if n < 10 {
        push_char(out, '0');
    }
    let digits = unsigned_text(n as u128);
    push_text(out, digits.as_str());
    assert(out@ =~= start + two_digits(n as nat));
}

fn push_clock(out: &mut String, t: DateTime)
    ensures
        final(out)@ == old(out)@ + clock_text(t),
{
    let ghost start = out@;
    let mut hour = t.hour;
    let mut half = 'A';
    if hour >= 12 {
        half = 'P';
        if hour != 12 {
            hour -= 12;
        }
    } else if hour == 0 {
        hour = 12;
    }
    push_text(out, unsigned_text(hour as u128).as_str());
    push_char(out, ':');
    push_two_digits(out, t.minute);
    push_char(out, ':');
    push_two_digits(out, t.second);
    push_char(out, '-');
    push_char(out, half);
    push_char(out, 'M');
    push_char(out, '-');
    push_text(out, signed_text(t.year as i128).as_str());
    push_char(out, '/');
    push_text(out, unsigned_text(t.month as u128).as_str());
    push_char(out, '/');
    push_text(out, unsigned_text(t.day as u128).as_str());
    assert(out@ =~= start + clock_text(t));
}

fn push_time(out: &mut String, time: Option<DateTime>, color: bool)
    ensures
        final(out)@ == old(out)@ + time_text(time, color),
{
    let ghost start = out@;
    if let Some(t) = time {
        push_char(out, ' ');
        if color {
            proof {
                reveal_strlit("\x1b[;2m");
            }
            push_text(out, "\x1b[;2m");
        }
        assert(out@ =~= start + seq![' '] + if_on(color, esc(seq![';', '2', 'm'])));
        push_clock(out, t);
        assert(out@ =~= start + time_text(time, color));
    } else {
        assert(out@ =~= start + time_text(time, color));
    }
}

impl Logger {
    pub fn new(color: bool, timezone: i32) -> (r: Logger)
        ensures
            r.color == color,
            r.timezone == timezone,
    {
        Logger { color, timezone }
    }

    /// The date and time of an instant in this logger's time zone.
    pub fn local_time(&self, unix_nanos: i128) -> (r: Option<DateTime>)
        ensures
            r == civil_time(unix_nanos as int, self.timezone as int),
    {
        civil_time_at(unix_nanos, self.timezone)
    }

    /// Writes the prefix of a record: the level icon and tag, the module path
    /// with `/` between its segments, the line and the time.
    pub fn write_prefix(&self, output: &mut String, meta: &Metadata, options: &PrefixOptions)
        ensures
            final(output)@ == old(output)@ + prefix_text(
                meta.level,
                meta.module@,
                meta.line,
                options.align,
                self.color,
                options.time,
            ),
    {
        let ghost start = output@;
        let color = self.color;
        push_head(output, meta.level, options.align, color);
        push_module(output, meta.module);
        push_line(output, meta.line, color);
        push_time(output, options.time, color);
        if color {
            proof {
                reveal_strlit("\x1b[m");
            }
            push_text(output, "\x1b[m");
        }
        assert(output@ =~= start + prefix_text(
            meta.level,
            meta.module@,
            meta.line,
            options.align,
            color,
            options.time,
        ));
    }
}

/// Alignment adds exactly one leading space for the info and warn levels, and
/// nothing for the others.
pub proof fn law_alignment_space(
    level: Level,
    module: Seq<char>,
    line: Option<u32>,
    color: bool,
    time: Option<DateTime>,
)
    ensures
        prefix_text(level, module, line, true, color, time) == if_on(
            is_short_level(level),
            seq![' '],
        ) + prefix_text(level, module, line, false, color, time),
        is_short_level(level) <==> (level == Level::Info || level == Level::Warn),
{
    assert(if_on(false, seq![' ']) =~= Seq::<char>::empty());
    assert(prefix_text(level, module, line, true, color, time) =~= if_on(
        is_short_level(level),
        seq![' '],
    ) + prefix_text(level, module, line, false, color, time));
}

/// With color on, a prefix always ends with the full reset sequence.
pub proof fn law_color_ends_with_reset(
    level: Level,
    module: Seq<char>,
    line: Option<u32>,
    align: bool,
    time: Option<DateTime>,
)
    ensures
        ({
            let t = prefix_text(level, module, line, align, true, time);
            t.len() >= 3 && t.subrange(t.len() - 3, t.len() as int) == full_reset()
        }),
{
    let t = prefix_text(level, module, line, align, true, time);
    let body = head_text(level, align, true) + slashed(module) + line_text(line, true) + time_text(
        time,
        true,
    );
    assert(t =~= body + full_reset());
    assert(t.subrange(t.len() - 3, t.len() as int) =~= full_reset());
}

/// No character of `s` is the escape character.
pub open spec fn escape_free(s: Seq<char>) -> bool {
    forall|i: int| 0 <= i < s.len() ==> s[i] != '\x1b'
}

pub(crate) proof fn lemma_escape_free_concat(a: Seq<char>, b: Seq<char>)
    requires
        escape_free(a),
        escape_free(b),
    ensures
        escape_free(a + b),
{
    assert forall|i: int| 0 <= i < (a + b).len() implies (a + b)[i] != '\x1b' by {
        if i < a.len() {
            assert((a + b)[i] == a[i]);
        } else {
            assert((a + b)[i] == b[i - a.len()]);
        }
    }
}

pub(crate) proof fn lemma_decimal_escape_free(n: nat)
    ensures
        escape_free(decimal(n)),
    decreases n,
{
    if n >= 10 {
        lemma_decimal_escape_free(n / 10);
        lemma_escape_free_concat(decimal(n / 10), seq![digit(n % 10)]);
        assert(decimal(n / 10).push(digit(n % 10)) =~= decimal(n / 10) + seq![digit(n % 10)]);
    }
}

proof fn lemma_slashed_escape_free(p: Seq<char>)
    requires
        escape_free(p),
    ensures
        escape_free(slashed(p)),
    decreases p.len(),
{
    if p.len() >= 2 && p[0] == ':' && p[1] == ':' {
        lemma_slashed_escape_free(p.skip(2));
        lemma_escape_free_concat(seq!['/'], slashed(p.skip(2)));
    } else if p.len() > 0 {
        lemma_slashed_escape_free(p.skip(1));
        lemma_escape_free_concat(seq![p[0]], slashed(p.skip(1)));
    }
}

proof fn lemma_clock_escape_free(t: DateTime)
    ensures
        escape_free(clock_text(t)),
{
    let hour: nat = if t.hour == 0 {
        12
    } else if t.hour > 12 {
        (t.hour - 12) as nat
    } else {
        t.hour as nat
    };
    lemma_decimal_escape_free(hour);
    lemma_decimal_escape_free(t.minute as nat);
    lemma_decimal_escape_free(t.second as nat);
    lemma_decimal_escape_free(t.month as nat);
    lemma_decimal_escape_free(t.day as nat);
    lemma_decimal_escape_free((-(t.year as int)) as nat);
    lemma_decimal_escape_free(t.year as nat);
    lemma_escape_free_concat(seq!['0'], decimal(t.minute as nat));
    lemma_escape_free_concat(seq!['0'], decimal(t.second as nat));
    lemma_escape_free_concat(seq!['-'], decimal((-(t.year as int)) as nat));
    let half = if t.hour >= 12 {
        'P'
    } else {
        'A'
    };
    let a1 = decimal(hour) + seq![':'];
    lemma_escape_free_concat(decimal(hour), seq![':']);
    let a2 = a1 + two_digits(t.minute as nat);
    lemma_escape_free_concat(a1, two_digits(t.minute as nat));
    let a3 = a2 + seq![':'];
    lemma_escape_free_concat(a2, seq![':']);
    let a4 = a3 + two_digits(t.second as nat);
    lemma_escape_free_concat(a3, two_digits(t.second as nat));
    let a5 = a4 + seq!['-', half, 'M', '-'];
    lemma_escape_free_concat(a4, seq!['-', half, 'M', '-']);
    let a6 = a5 + signed_decimal(t.year as int);
    lemma_escape_free_concat(a5, signed_decimal(t.year as int));
    let a7 = a6 + seq!['/'];
    lemma_escape_free_concat(a6, seq!['/']);
    let a8 = a7 + decimal(t.month as nat);
    lemma_escape_free_concat(a7, decimal(t.month as nat));
    let a9 = a8 + seq!['/'];
    lemma_escape_free_concat(a8, seq!['/']);
    lemma_escape_free_concat(a9, decimal(t.day as nat));
}

proof fn lemma_head_escape_free(level: Level, align: bool)
    ensures
        escape_free(head_text(level, align, false)),
{
    let t = head_text(level, align, false);
    let sp = if_on(align && is_short_level(level), seq![' ']);
    assert(t =~= sp + seq![level_icon(level), ' '] + level_tag(level) + seq![' ']);
    lemma_escape_free_concat(sp, seq![level_icon(level), ' ']);
    lemma_escape_free_concat(sp + seq![level_icon(level), ' '], level_tag(level));
    lemma_escape_free_concat(sp + seq![level_icon(level), ' '] + level_tag(level), seq![' ']);
}

pub(crate) proof fn lemma_indented_escape_free(s: Seq<char>, n: nat)
    requires
        escape_free(s),
    ensures
        escape_free(indented(s, n)),
    decreases s.len(),
{
    if s.len() > 0 {
        assert(escape_free(s.drop_last()));
        lemma_indented_escape_free(s.drop_last(), n);
        assert(s.last() == s[s.len() - 1]);
        assert(escape_free(indent_char(s.last(), n)));
        lemma_escape_free_concat(indented(s.drop_last(), n), indent_char(s.last(), n));
    }
}

/// With color off, a prefix holds no escape character unless the module path
/// brings one.
pub proof fn law_plain_prefix_escape_free(
    level: Level,
    module: Seq<char>,
    line: Option<u32>,
    align: bool,
    time: Option<DateTime>,
)
    requires
        escape_free(module),
    ensures
        escape_free(prefix_text(level, module, line, align, false, time)),
{
    lemma_head_escape_free(level, align);
    lemma_slashed_escape_free(module);
    let h = head_text(level, align, false);
    lemma_escape_free_concat(h, slashed(module));
    let l = line_text(line, false);
    if let Some(n) = line {
        lemma_decimal_escape_free(n as nat);
        assert(l =~= seq![':'] + decimal(n as nat));
        lemma_escape_free_concat(seq![':'], decimal(n as nat));
    }
    lemma_escape_free_concat(h + slashed(module), l);
    let tt = time_text(time, false);
    if let Some(d) = time {
        lemma_clock_escape_free(d);
        assert(tt =~= seq![' '] + clock_text(d));
        lemma_escape_free_concat(seq![' '], clock_text(d));
    }
    lemma_escape_free_concat(h + slashed(module) + l, tt);
    assert(prefix_text(level, module, line, align, false, time) =~= h + slashed(module) + l + tt);
}

} // verus!
