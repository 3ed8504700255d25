use vstd::prelude::*;
use crate::sink::StringLike;
use crate::text::{
    decimal, indented, lemma_indented_concat, lemma_indented_one, signed_decimal, signed_text,
    unsigned_text,
};

verus! {

/// The value of a field of a record or a span.
pub enum FieldValue {
    /// A value already rendered, written as it stands.
    Text(String),
    Str(String),
    Bool(bool),
    U64(u64),
    U128(u128),
    I64(i64),
    I128(i128),
}

/// A named field of a record or a span.
pub struct Field {
    pub name: String,
    pub value: FieldValue,
}

/// The string in double quotes, with quotes, backslashes and control
/// characters escaped, as Rust's `Debug` for `str` writes it.
pub uninterp spec fn debug_quoted(s: Seq<char>) -> Seq<char>;

/// Relies on `<str as Debug>::fmt`, through `format!`: the quoted and escaped
/// form of the string.
#[verifier::external_body]
fn quoted(s: &str) -> (r: String)
    ensures
        r@ == debug_quoted(s@),
{
    format!("{:?}", s)
}

/// The name of the field that holds a record's message.
pub open spec fn message_name() -> Seq<char> {
    seq!['m', 'e', 's', 's', 'a', 'g', 'e']
}

/// A line break, then the name and `: ` unless the field is the message.
pub open spec fn field_head(name: Seq<char>) -> Seq<char> {
    if name == message_name() {
        seq!['\n']
    } else {
        seq!['\n'] + name + seq![':', ' ']
    }
}

pub open spec fn bool_text(b: bool) -> Seq<char> {
    if b {
        seq!['t', 'r', 'u', 'e']
    } else {
        seq!['f', 'a', 'l', 's', 'e']
    }
}

/// A string value: the message as it stands, any other string quoted.
pub open spec fn str_text(name: Seq<char>, s: Seq<char>) -> Seq<char> {
    if name == message_name() {
        s
    } else {
        debug_quoted(s)
    }
}

/// How a value is written after the head of its field: a message string as it
/// stands, any other string quoted, numbers in decimal.
pub open spec fn value_text(name: Seq<char>, value: FieldValue) -> Seq<char> {
    match value {
        FieldValue::Text(t) => t@,
        FieldValue::Str(s) => str_text(name, s@),
        FieldValue::Bool(b) => bool_text(b),
        FieldValue::U64(n) => decimal(n as nat),
        FieldValue::U128(n) => decimal(n as nat),
        FieldValue::I64(n) => signed_decimal(n as int),
        FieldValue::I128(n) => signed_decimal(n as int),
    }
}

pub open spec fn field_text(name: Seq<char>, value: FieldValue) -> Seq<char> {
    field_head(name) + value_text(name, value)
}

/// The fields one after the other.
pub open spec fn fields_text(fields: Seq<Field>) -> Seq<char>
    decreases fields.len(),
{
    if fields.len() == 0 {
        Seq::empty()
    } else {
        fields_text(fields.drop_last()) + field_text(fields.last().name@, fields.last().value)
    }
}

fn is_message(name: &str) -> (r: bool)
    ensures
        r == (name@ == message_name()),
{
    let expected = "message";
    proof {
        reveal_strlit("message");
    }
    if name.unicode_len() != 7 {
        return false;
    }
    let mut i: usize = 0;
    while i < 7
        invariant
            i <= 7,
            name@.len() == 7,
            expected@ == message_name(),
            forall|j: int| 0 <= j < i ==> name@[j] == message_name()[j],
        decreases 7 - i,
    {
        if name.get_char(i) != expected.get_char(i) {
            return false;
        }
        i += 1;
    }
    assert(name@ =~= message_name());
    true
}

/// Writes the fields of records and spans to a sink.
pub struct FieldVisitor<T> {
    pub output: T,
}

impl<T: StringLike> FieldVisitor<T> {
    pub fn new(output: T) -> (r: Self)
        ensures
            r.output == output,
    {
        FieldVisitor { output }
    }

    /// Writes the head of a field and says whether it is the message.
    fn write_field(&mut self, name: &str) -> (r: bool)
        ensures
            r == (name@ == message_name()),
            final(self).output.indent_width() == old(self).output.indent_width(),
            final(self).output.text() == old(self).output.text() + indented(
                field_head(name@),
                old(self).output.indent_width(),
            ),
    {
        let ghost w = self.output.indent_width();
        let ghost start = self.output.text();
        self.output.push('\n');
        proof {
            lemma_indented_one('\n', w);
        }
        let message = is_message(name);
        if !message {
            self.output.push_str(name);
            let sep = ": ";
            proof {
                reveal_strlit(": ");
            }
            self.output.push_str(sep);
            proof {
                lemma_indented_concat(seq!['\n'], name@, w);
                lemma_indented_concat(seq!['\n'] + name@, seq![':', ' '], w);
                assert(sep@ =~= seq![':', ' ']);
            }
            assert(self.output.text() =~= start + indented(field_head(name@), w));
        } else {
            assert(self.output.text() =~= start + indented(field_head(name@), w));
        }
        message
    }

    /// Writes the head of the field `name`, then `value` as it stands.
    fn write_value(&mut self, name: &str, value: &str)
        ensures
            final(self).output.indent_width() == old(self).output.indent_width(),
            final(self).output.text() == old(self).output.text() + indented(
                field_head(name@) + value@,
                old(self).output.indent_width(),
            ),
    {
        let ghost w = self.output.indent_width();
        let ghost start = self.output.text();
        self.write_field(name);
        self.output.push_str(value);
        proof {
            lemma_indented_concat(field_head(name@), value@, w);
        }
        assert(self.output.text() =~= start + indented(field_head(name@) + value@, w));
    }

    /// Records a value that is already rendered.
    pub fn record_text(&mut self, name: &str, value: &str)
        ensures
            final(self).output.indent_width() == old(self).output.indent_width(),
            final(self).output.text() == old(self).output.text() + indented(
                field_head(name@) + value@,
                old(self).output.indent_width(),
            ),
    {
        self.write_value(name, value);
    }

    pub fn record_str(&mut self, name: &str, value: &str)
        ensures
            final(self).output.indent_width() == old(self).output.indent_width(),
            final(self).output.text() == old(self).output.text() + indented(
                field_head(name@) + str_text(name@, value@),
                old(self).output.indent_width(),
            ),
    {
        if is_message(name) {
            self.write_value(name, value);
        } else {
            let q = quoted(value);
            self.write_value(name, q.as_str());
        }
    }

    pub fn record_bool(&mut self, name: &str, value: bool)
        ensures
            final(self).output.indent_width() == old(self).output.indent_width(),
            final(self).output.text() == old(self).output.text() + indented(
                field_head(name@) + bool_text(value),
                old(self).output.indent_width(),
            ),
    {
        let text = if value {
            "true"
        } else {
            "false"
        };
        proof {
            reveal_strlit("true");
            reveal_strlit("false");
        }
        assert(text@ =~= bool_text(value));
        self.write_value(name, text);
    }

    pub fn record_u64(&mut self, name: &str, value: u64)
        ensures
            final(self).output.indent_width() == old(self).output.indent_width(),
            final(self).output.text() == old(self).output.text() + indented(
                field_head(name@) + decimal(value as nat),
                old(self).output.indent_width(),
            ),
    {
        let text = unsigned_text(value as u128);
        self.write_value(name, text.as_str());
    }

    pub fn record_u128(&mut self, name: &str, value: u128)
        ensures
            final(self).output.indent_width() == old(self).output.indent_width(),
            final(self).output.text() == old(self).output.text() + indented(
                field_head(name@) + decimal(value as nat),
                old(self).output.indent_width(),
            ),
    {
        let text = unsigned_text(value);
        self.write_value(name, text.as_str());
    }

    pub fn record_i64(&mut self, name: &str, value: i64)
        ensures
            final(self).output.indent_width() == old(self).output.indent_width(),
            final(self).output.text() == old(self).output.text() + indented(
                field_head(name@) + signed_decimal(value as int),
                old(self).output.indent_width(),
            ),
    {
        let text = signed_text(value as i128);
        self.write_value(name, text.as_str());
    }

    pub fn record_i128(&mut self, name: &str, value: i128)
        ensures
            final(self).output.indent_width() == old(self).output.indent_width(),
            final(self).output.text() == old(self).output.text() + indented(
                field_head(name@) + signed_decimal(value as int),
                old(self).output.indent_width(),
            ),
    {
        let text = signed_text(value);
        self.write_value(name, text.as_str());
    }

    /// Records one field.
    pub fn record(&mut self, field: &Field)
        ensures
            final(self).output.indent_width() == old(self).output.indent_width(),
            final(self).output.text() == old(self).output.text() + indented(
                field_text(field.name@, field.value),
                old(self).output.indent_width(),
            ),
    {
        let name = field.name.as_str();
        match &field.value {
            FieldValue::Text(t) => self.record_text(name, t.as_str()),
            FieldValue::Str(v) => self.record_str(name, v.as_str()),
            FieldValue::Bool(b) => self.record_bool(name, *b),
            FieldValue::U64(n) => self.record_u64(name, *n),
            FieldValue::U128(n) => self.record_u128(name, *n),
            FieldValue::I64(n) => self.record_i64(name, *n),
            FieldValue::I128(n) => self.record_i128(name, *n),
        }
    }

    /// Records the fields in order.
    pub fn record_all(&mut self, fields: &Vec<Field>)
        ensures
            final(self).output.indent_width() == old(self).output.indent_width(),
            final(self).output.text() == old(self).output.text() + indented(
                fields_text(fields@),
                old(self).output.indent_width(),
            ),
    {
        let ghost w = self.output.indent_width();
        let ghost start = self.output.text();
        let n = fields.len();
        let mut i: usize = 0;
        assert(fields@.take(0) =~= Seq::<Field>::empty());
        while i < n
            invariant
                n == fields@.len(),
                i <= n,
                self.output.indent_width() == w,
                self.output.text() == start + indented(fields_text(fields@.take(i as int)), w),
            decreases n - i,
        {
            let ghost before = fields_text(fields@.take(i as int));
            self.record(&fields[i]);
            proof {
                let f = fields@[i as int];
                assert(fields@.take(i as int + 1).drop_last() =~= fields@.take(i as int));
                assert(fields@.take(i as int + 1).last() == f);
                lemma_indented_concat(before, field_text(f.name@, f.value), w);
            }
            i += 1;
        }
        assert(fields@.take(n as int) =~= fields@);
    }
}

} // verus!
