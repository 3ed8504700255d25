use vstd::prelude::*;
use crate::fields::{fields_text, Field, FieldVisitor};
use crate::level::Metadata;
use crate::prefix::{
    civil_time, esc, escape_free, full_reset, if_on, law_plain_prefix_escape_free,
    lemma_decimal_escape_free, lemma_escape_free_concat, lemma_indented_escape_free, prefix_text,
    DateTime, Logger, PrefixOptions,
};
use crate::sink::{Indented, StringLike};
use crate::text::{
    decimal, indented, lemma_indented_concat, lemma_indented_one, lemma_indented_zero, push_char,
    unsigned_text,
};

verus! {

/// The indentation of the body of an event under its prefix.
pub const BODY_INDENT: usize = 8;

/// The indentation of the prefix of an enclosing span.
pub const SCOPE_INDENT: usize = 6;

/// What a span keeps for the events inside it: its rendered prefix and
/// fields in one buffer, its name and the clock reading when it was created.
pub struct SpanData {
    content: String,
    /// The number of characters of `content` that make up the prefix.
    prefix_end: usize,
    name: String,
    created: u64,
}

impl SpanData {
    #[verifier::type_invariant]
    spec fn split_in_range(&self) -> bool {
        self.prefix_end <= self.content@.len()
    }

    pub closed spec fn prefix(&self) -> Seq<char> {
        self.content@.take(self.prefix_end as int)
    }

    pub closed spec fn fields(&self) -> Seq<char> {
        self.content@.skip(self.prefix_end as int)
    }

    pub closed spec fn name(&self) -> Seq<char> {
        self.name@
    }

    /// The clock reading, in nanoseconds, when the span was created.
    pub closed spec fn created(&self) -> u64 {
        self.created
    }

    /// The cached prefix and field text.
    fn parts(&self) -> (r: (&str, &str))
        ensures
            r.0@ == self.prefix(),
            r.1@ == self.fields(),
    {
        proof {
            use_type_invariant(self);
        }
        let all = self.content.as_str();
        let len = all.unicode_len();
        (all.substring_char(0, self.prefix_end), all.substring_char(self.prefix_end, len))
    }

    /// Appends the fields recorded on the span after its creation.
    pub fn record(&mut self, fields: &Vec<Field>)
        ensures
            final(self).prefix() == old(self).prefix(),
            final(self).fields() == old(self).fields() + fields_text(fields@),
            final(self).name() == old(self).name(),
            final(self).created() == old(self).created(),
    {
        proof {
            use_type_invariant(&*self);
        }
        let ghost old_content = self.content@;
        let mut taken = SpanData { content: String::new(), prefix_end: 0, name: String::new(), created: 0 };
        std::mem::swap(self, &mut taken);
        proof {
            use_type_invariant(&taken);
        }
        let SpanData { content, prefix_end, name, created } = taken;
        let mut visitor = FieldVisitor::new(content);
        visitor.record_all(fields);
        let mut filled = SpanData { content: visitor.output, prefix_end, name, created };
        std::mem::swap(self, &mut filled);
        proof {
            lemma_indented_zero(fields_text(fields@));
            assert(self.content@.take(self.prefix_end as int) =~= old_content.take(
                self.prefix_end as int,
            ));
            assert(self.content@.skip(self.prefix_end as int) =~= old_content.skip(
                self.prefix_end as int,
            ) + fields_text(fields@));
        }
    }
}

/// How long ago a span was created, as a note after its prefix: nothing
/// below a millisecond, whole milliseconds below a second, and seconds with
/// three decimals above.
pub open spec fn elapsed_text(created: u64, now: u64, color: bool) -> Seq<char> {
    let e: nat = if now >= created {
        (now - created) as nat
    } else {
        0
    };
    if e < 1_000_000 {
        Seq::empty()
    } else {
        let amount = if e < 1_000_000_000 {
            decimal(e / 1_000_000) + seq!['m']
        } else {
            decimal(e / 1_000_000_000) + seq!['.'] + three_digits((e / 1_000_000) % 1000)
        };
        if_on(color, esc(seq!['2', 'm'])) + seq![' ', '('] + amount + seq!['s', ' ', 'a', 'g', 'o', ')']
            + if_on(color, full_reset())
    }
}

/// A number below 1000 with at least three digits.
pub open spec fn three_digits(n: nat) -> Seq<char> {
    if n < 10 {
        seq!['0', '0'] + decimal(n)
    } else if n < 100 {
        seq!['0'] + decimal(n)
    } else {
        decimal(n)
    }
}

/// The span's name on a line of its own, where it has one.
pub open spec fn name_text(name: Seq<char>) -> Seq<char> {
    if name.len() == 0 {
        Seq::empty()
    } else {
        seq!['\n'] + name
    }
}

/// One enclosing span as an event shows it: its prefix on a new line, two
/// columns left of the event's body, then the time since it was created, its
/// name and its fields, at the body's indentation.
pub open spec fn ancestor_text(span: SpanData, now: u64, color: bool) -> Seq<char> {
    indented(seq!['\n'] + span.prefix(), SCOPE_INDENT as nat) + indented(
        elapsed_text(span.created(), now, color) + name_text(span.name()) + span.fields(),
        BODY_INDENT as nat,
    )
}

/// The enclosing spans, innermost first.
pub open spec fn scope_text(scope: Seq<&SpanData>, now: u64, color: bool) -> Seq<char>
    decreases scope.len(),
{
    if scope.len() == 0 {
        Seq::empty()
    } else {
        scope_text(scope.drop_last(), now, color) + ancestor_text(*scope.last(), now, color)
    }
}

/// The time of an instant in the logger's zone, where one is given and the
/// calendar holds it.
pub open spec fn shown_time(logger: Logger, unix_nanos: Option<i128>) -> Option<DateTime> {
    match unix_nanos {
        Some(n) => civil_time(n as int, logger.timezone as int),
        None => None,
    }
}

/// A whole event: its prefix, its fields under it, the enclosing spans and a
/// final line break.
pub open spec fn event_text(
    logger: Logger,
    meta: Metadata,
    unix_nanos: Option<i128>,
    now: u64,
    fields: Seq<Field>,
    scope: Seq<&SpanData>,
) -> Seq<char> {
    prefix_text(meta.level, meta.module@, meta.line, true, logger.color, shown_time(logger, unix_nanos))
        + indented(fields_text(fields), BODY_INDENT as nat) + scope_text(scope, now, logger.color)
        + seq!['\n']
}

fn push_three_digits(out: &mut String, n: u64)
    requires
        n < 1000,
    ensures
        final(out)@ == old(out)@ + three_digits(n as nat),
{
    let ghost start = out@;
    if n < 10 {
        push_char(out, '0');
        push_char(out, '0');
    } else if n < 100 {
        push_char(out, '0');
    }
    out.append(unsigned_text(n as u128).as_str());
    assert(out@ =~= start + three_digits(n as nat));
}

fn elapsed_note(created: u64, now: u64, color: bool) -> (r: String)
    ensures
        r@ == elapsed_text(created, now, color),
{
    let e = now.saturating_sub(created);
    let mut out = String::new();
    if e < 1_000_000 {
        return out;
    }
    if color {
        proof {
            reveal_strlit("\x1b[2m");
        }
        out.append("\x1b[2m");
    }
    push_char(&mut out, ' ');
    push_char(&mut out, '(');
    if e < 1_000_000_000 {
        out.append(unsigned_text((e / 1_000_000) as u128).as_str());
        push_char(&mut out, 'm');
    } else {
        out.append(unsigned_text((e / 1_000_000_000) as u128).as_str());
        push_char(&mut out, '.');
        push_three_digits(&mut out, (e / 1_000_000) % 1000);
    }
    let tail = "s ago)";
    proof {
        reveal_strlit("s ago)");
    }
    out.append(tail);
    if color {
        proof {
            reveal_strlit("\x1b[m");
        }
        out.append("\x1b[m");
    }
    assert(out@ =~= elapsed_text(created, now, color));
    out
}

fn push_ancestor(ind: &mut Indented<String>, span: &SpanData, now: u64, color: bool)
    requires
        old(ind).indent == BODY_INDENT,
    ensures
        final(ind).indent == BODY_INDENT,
        final(ind).output@ == old(ind).output@ + ancestor_text(*span, now, color),
{
    let ghost before = ind.output@;
    let (prefix, span_fields) = span.parts();
    ind.indent = SCOPE_INDENT;
    ind.push('\n');
    ind.push_str(prefix);
    proof {
        lemma_indented_one('\n', SCOPE_INDENT as nat);
        lemma_indented_concat(seq!['\n'], span.prefix(), SCOPE_INDENT as nat);
    }
    assert(ind.output@ =~= before + indented(seq!['\n'] + span.prefix(), SCOPE_INDENT as nat));
    ind.indent = BODY_INDENT;
    let note = elapsed_note(span.created, now, color);
    ind.push_str(note.as_str());
    let ghost after_note = ind.output@;
    let name = span.name.as_str();
    if !name.is_empty() {
        ind.push('\n');
        ind.push_str(name);
        proof {
            lemma_indented_one('\n', BODY_INDENT as nat);
            lemma_indented_concat(seq!['\n'], name@, BODY_INDENT as nat);
        }
        assert(ind.output@ =~= after_note + indented(name_text(name@), BODY_INDENT as nat));
    } else {
        assert(name_text(name@) =~= Seq::<char>::empty());
        assert(ind.output@ =~= after_note + indented(name_text(name@), BODY_INDENT as nat));
    }
    ind.push_str(span_fields);
    proof {
        let note_t = elapsed_text(span.created(), now, color);
        lemma_indented_concat(note_t, name_text(span.name()), BODY_INDENT as nat);
        lemma_indented_concat(note_t + name_text(span.name()), span.fields(), BODY_INDENT as nat);
    }
    assert(ind.output@ =~= before + ancestor_text(*span, now, color));
}

impl Logger {
    /// The data kept for a new span: its prefix, without alignment or time,
    /// then its first fields, not indented.
    pub fn new_span(&self, meta: &Metadata, name: &str, fields: &Vec<Field>, now: u64) -> (r:
        SpanData)
        ensures
            r.prefix() == prefix_text(meta.level, meta.module@, meta.line, false, self.color, None),
            r.fields() == fields_text(fields@),
            r.name() == name@,
            r.created() == now,
    {
        let mut content = String::new();
        self.write_prefix(&mut content, meta, &PrefixOptions { align: false, time: None });
        let prefix_end = content.as_str().unicode_len();
        let ghost prefix = content@;
        let mut visitor = FieldVisitor::new(content);
        visitor.record_all(fields);
        proof {
            lemma_indented_zero(fields_text(fields@));
        }
        let r = SpanData { content: visitor.output, prefix_end, name: name.to_owned(), created: now };
        assert(r.content@.take(prefix_end as int) =~= prefix);
        assert(r.content@.skip(prefix_end as int) =~= fields_text(fields@));
        r
    }

    /// Renders an event: its prefix with alignment and time, its fields
    /// indented under it, then each enclosing span from the innermost out.
    pub fn render_event(
        &self,
        buf: &mut String,
        meta: &Metadata,
        unix_nanos: Option<i128>,
        now: u64,
        fields: &Vec<Field>,
        scope: &Vec<&SpanData>,
    )
        ensures
            final(buf)@ == old(buf)@ + event_text(*self, *meta, unix_nanos, now, fields@, scope@),
    {
        let ghost start = buf@;
        let time = match unix_nanos {
            Some(n) => self.local_time(n),
            None => None,
        };
        self.write_prefix(buf, meta, &PrefixOptions { align: true, time });
        let mut taken = String::new();
        std::mem::swap(buf, &mut taken);
        let mut visitor = FieldVisitor::new(Indented::new(taken, BODY_INDENT));
        visitor.record_all(fields);
        let mut ind = visitor.output;
        let ghost after_fields = ind.output@;
        let n = scope.len();
        let mut i: usize = 0;
        assert(scope@.take(0) =~= Seq::<&SpanData>::empty());
        while i < n
            invariant
                n == scope@.len(),
                i <= n,
                ind.indent == BODY_INDENT,
                ind.output@ == after_fields + scope_text(scope@.take(i as int), now, self.color),
            decreases n - i,
        {
            let span: &SpanData = scope[i];
            push_ancestor(&mut ind, span, now, self.color);
            assert(scope@.take(i as int + 1).drop_last() =~= scope@.take(i as int));
            assert(scope@.take(i as int + 1).last() == span);
            i += 1;
        }
        assert(scope@.take(n as int) =~= scope@);
        let mut filled = ind.output;
        std::mem::swap(buf, &mut filled);
        push_char(buf, '\n');
        assert(buf@ =~= start + event_text(*self, *meta, unix_nanos, now, fields@, scope@));
    }
}

proof fn lemma_elapsed_escape_free(created: u64, now: u64)
    ensures
        escape_free(elapsed_text(created, now, false)),
{
    let e: nat = if now >= created {
        (now - created) as nat
    } else {
        0
    };
    if e >= 1_000_000 {
        let ms = (e / 1_000_000) % 1000;
        lemma_decimal_escape_free(e / 1_000_000);
        lemma_decimal_escape_free(e / 1_000_000_000);
        lemma_decimal_escape_free(ms);
        lemma_escape_free_concat(seq!['0', '0'], decimal(ms));
        lemma_escape_free_concat(seq!['0'], decimal(ms));
        lemma_escape_free_concat(decimal(e / 1_000_000), seq!['m']);
        lemma_escape_free_concat(decimal(e / 1_000_000_000), seq!['.']);
        lemma_escape_free_concat(decimal(e / 1_000_000_000) + seq!['.'], three_digits(ms));
        let amount = if e < 1_000_000_000 {
            decimal(e / 1_000_000) + seq!['m']
        } else {
            decimal(e / 1_000_000_000) + seq!['.'] + three_digits(ms)
        };
        lemma_escape_free_concat(seq![' ', '('], amount);
        lemma_escape_free_concat(seq![' ', '('] + amount, seq!['s', ' ', 'a', 'g', 'o', ')']);
        assert(elapsed_text(created, now, false) =~= seq![' ', '('] + amount + seq![
            's',
            ' ',
            'a',
            'g',
            'o',
            ')',
        ]);
    }
}

proof fn lemma_scope_escape_free(scope: Seq<&SpanData>, now: u64)
    requires
        forall|i: int|
            0 <= i < scope.len() ==> escape_free(scope[i].prefix()) && escape_free(
                scope[i].fields(),
            ) && escape_free(scope[i].name()),
    ensures
        escape_free(scope_text(scope, now, false)),
    decreases scope.len(),
{
    if scope.len() > 0 {
        let last = *scope.last();
        assert(scope.last() == scope[scope.len() - 1]);
        lemma_scope_escape_free(scope.drop_last(), now);
        lemma_escape_free_concat(seq!['\n'], last.prefix());
        lemma_indented_escape_free(seq!['\n'] + last.prefix(), SCOPE_INDENT as nat);
        lemma_elapsed_escape_free(last.created(), now);
        lemma_escape_free_concat(seq!['\n'], last.name());
        let note = elapsed_text(last.created(), now, false);
        lemma_escape_free_concat(note, name_text(last.name()));
        lemma_escape_free_concat(note + name_text(last.name()), last.fields());
        lemma_indented_escape_free(
            note + name_text(last.name()) + last.fields(),
            BODY_INDENT as nat,
        );
        lemma_escape_free_concat(
            indented(seq!['\n'] + last.prefix(), SCOPE_INDENT as nat),
            indented(note + name_text(last.name()) + last.fields(), BODY_INDENT as nat),
        );
        lemma_escape_free_concat(
            scope_text(scope.drop_last(), now, false),
            ancestor_text(last, now, false),
        );
    }
}

/// With color off, a rendered event holds no escape character unless its
/// module path, the text of its fields, or the prefix, fields or name kept
/// for one of its spans brings one.
pub proof fn law_plain_event_escape_free(
    logger: Logger,
    meta: Metadata,
    unix_nanos: Option<i128>,
    now: u64,
    fields: Seq<Field>,
    scope: Seq<&SpanData>,
)
    requires
        !logger.color,
        escape_free(meta.module@),
        escape_free(fields_text(fields)),
        forall|i: int|
            0 <= i < scope.len() ==> escape_free(scope[i].prefix()) && escape_free(
                scope[i].fields(),
            ) && escape_free(scope[i].name()),
    ensures
        escape_free(event_text(logger, meta, unix_nanos, now, fields, scope)),
{
    let time = shown_time(logger, unix_nanos);
    law_plain_prefix_escape_free(meta.level, meta.module@, meta.line, true, time);
    let p = prefix_text(meta.level, meta.module@, meta.line, true, false, time);
    lemma_indented_escape_free(fields_text(fields), BODY_INDENT as nat);
    let f = indented(fields_text(fields), BODY_INDENT as nat);
    lemma_scope_escape_free(scope, now);
    let sc = scope_text(scope, now, false);
    lemma_escape_free_concat(p, f);
    lemma_escape_free_concat(p + f, sc);
    lemma_escape_free_concat(p + f + sc, seq!['\n']);
}

/// An event inside a span that is itself inside another shows, in order: its
/// own prefix and fields, the block of the inner span, the block of the outer
/// span, and a line break.
pub proof fn law_event_inner_before_outer(
    logger: Logger,
    meta: Metadata,
    unix_nanos: Option<i128>,
    now: u64,
    fields: Seq<Field>,
    inner: &SpanData,
    outer: &SpanData,
)
    ensures
        event_text(logger, meta, unix_nanos, now, fields, seq![inner, outer]) == prefix_text(
            meta.level,
            meta.module@,
            meta.line,
            true,
            logger.color,
            shown_time(logger, unix_nanos),
        ) + indented(fields_text(fields), BODY_INDENT as nat) + ancestor_text(
            *inner,
            now,
            logger.color,
        ) + ancestor_text(*outer, now, logger.color) + seq!['\n'],
{
    let two = seq![inner, outer];
    assert(two.drop_last() =~= seq![inner]);
    assert(seq![inner].drop_last() =~= Seq::<&SpanData>::empty());
    assert(scope_text(Seq::<&SpanData>::empty(), now, logger.color) == Seq::<char>::empty());
    assert(scope_text(seq![inner], now, logger.color) =~= ancestor_text(*inner, now, logger.color));
    assert(scope_text(two, now, logger.color) =~= ancestor_text(*inner, now, logger.color)
        + ancestor_text(*outer, now, logger.color));
    assert(event_text(logger, meta, unix_nanos, now, fields, two) =~= prefix_text(
        meta.level,
        meta.module@,
        meta.line,
        true,
        logger.color,
        shown_time(logger, unix_nanos),
    ) + indented(fields_text(fields), BODY_INDENT as nat) + ancestor_text(*inner, now, logger.color)
        + ancestor_text(*outer, now, logger.color) + seq!['\n']);
}

} // verus!
