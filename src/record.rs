use vstd::prelude::*;
use crate::level::Metadata;
use crate::prefix::{
    escape_free, law_plain_prefix_escape_free, lemma_escape_free_concat,
    lemma_indented_escape_free, prefix_text, Logger, PrefixOptions,
};
use crate::sink::{Indented, StringLike};
use crate::span::{shown_time, BODY_INDENT};
use crate::text::{indented, lemma_indented_concat, lemma_indented_one, push_char};

verus! {

/// The body of a flat record: nothing for an empty literal message, else the
/// message on a new line, indented under the prefix.
pub open spec fn message_text(message: Seq<char>, literal: bool) -> Seq<char> {
    if literal && message.len() == 0 {
        Seq::empty()
    } else {
        indented(seq!['\n'] + message, BODY_INDENT as nat)
    }
}

/// A whole flat record: its prefix, its message and a final line break.
pub open spec fn record_text(
    logger: Logger,
    meta: Metadata,
    unix_nanos: Option<i128>,
    message: Seq<char>,
    literal: bool,
) -> Seq<char> {
    prefix_text(meta.level, meta.module@, meta.line, true, logger.color, shown_time(logger, unix_nanos))
        + message_text(message, literal) + seq!['\n']
}

impl Logger {
    /// Renders a flat record. `literal` says that the message is the record's
    /// own text rather than the result of formatting its arguments.
    pub fn render_record(
        &self,
        buf: &mut String,
        meta: &Metadata,
        unix_nanos: Option<i128>,
        message: &str,
        literal: bool,
    )
        ensures
            final(buf)@ == old(buf)@ + record_text(*self, *meta, unix_nanos, message@, literal),
    {
        let ghost start = buf@;
        let time = match unix_nanos {
            Some(n) => self.local_time(n),
            None => None,
        };
        self.write_prefix(buf, meta, &PrefixOptions { align: true, time });
        let ghost after_prefix = buf@;
        if !(literal && message.is_empty()) {
            let mut taken = String::new();
            std::mem::swap(buf, &mut taken);
            let mut ind = Indented::new(taken, BODY_INDENT);
            ind.push('\n');
            ind.push_str(message);
            let mut filled = ind.output;
            std::mem::swap(buf, &mut filled);
            proof {
                lemma_indented_one('\n', BODY_INDENT as nat);
                lemma_indented_concat(seq!['\n'], message@, BODY_INDENT as nat);
            }
        }
        assert(buf@ =~= after_prefix + message_text(message@, literal));
        push_char(buf, '\n');
        assert(buf@ =~= start + record_text(*self, *meta, unix_nanos, message@, literal));
    }
}

/// With color off, a rendered record holds no escape character unless its
/// module path or its message brings one.
pub proof fn law_plain_record_escape_free(
    logger: Logger,
    meta: Metadata,
    unix_nanos: Option<i128>,
    message: Seq<char>,
    literal: bool,
)
    requires
        !logger.color,
        escape_free(meta.module@),
        escape_free(message),
    ensures
        escape_free(record_text(logger, meta, unix_nanos, message, literal)),
{
    let time = shown_time(logger, unix_nanos);
    law_plain_prefix_escape_free(meta.level, meta.module@, meta.line, true, time);
    let p = prefix_text(meta.level, meta.module@, meta.line, true, false, time);
    lemma_escape_free_concat(seq!['\n'], message);
    lemma_indented_escape_free(seq!['\n'] + message, BODY_INDENT as nat);
    let m = message_text(message, literal);
    assert(escape_free(m));
    lemma_escape_free_concat(p, m);
    lemma_escape_free_concat(p + m, seq!['\n']);
}

} // verus!
