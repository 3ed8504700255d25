//! A small console renderer for log records and trace events: a colored
//! severity prefix, indented multi-line bodies and the spans that enclose an
//! event, each rendered into a buffer that is written out in one piece.

mod error;
mod fields;
mod level;
mod pool;
mod prefix;
mod record;
mod sink;
mod span;
mod text;

pub use error::{error_intro, LogError};
pub use fields::{
    bool_text, debug_quoted, field_head, field_text, fields_text, message_name, str_text,
    value_text, Field, FieldValue, FieldVisitor,
};
pub use level::{Level, Metadata};
pub use pool::BufferSlot;
pub use prefix::{
    civil_time, clock_text, escape_free, esc, full_reset, head_text, if_on, is_short_level,
    law_alignment_space, law_color_ends_with_reset, law_plain_prefix_escape_free, level_color,
    level_icon, level_tag, line_text, prefix_text, slashed, time_text, two_digits, DateTime,
    Logger, PrefixOptions,
};
pub use record::{law_plain_record_escape_free, message_text, record_text};
pub use sink::{Indented, StringLike};
pub use span::{
    ancestor_text, elapsed_text, event_text, law_event_inner_before_outer,
    law_plain_event_escape_free, name_text, scope_text, shown_time, three_digits,
    SpanData, BODY_INDENT, SCOPE_INDENT,
};
pub use text::{
    decimal, digit, indent_char, indented, law_indent_per_character, lemma_indented_concat,
    signed_decimal, spaces,
};
