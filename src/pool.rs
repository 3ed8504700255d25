use vstd::prelude::*;

verus! {

/// Relies on `String::clear`: the text becomes empty.
#[verifier::external_body]
fn clear_text(s: &mut String)
    ensures
        final(s)@ == Seq::<char>::empty(),
{
    s.clear();
}

/// A place for one reusable output buffer.
///
/// A renderer takes the buffer, fills it, and gives it back once its text has
/// been written out. A render that starts while the buffer is out (one that
/// runs inside another) gets a fresh buffer instead, so it never touches the
/// text of the render around it.
pub struct BufferSlot {
    buf: Option<String>,
}

impl BufferSlot {
    /// Whether the slot holds a buffer, and that buffer's text.
    pub closed spec fn held(&self) -> Option<Seq<char>> {
        match self.buf {
            Some(b) => Some(b@),
            None => None,
        }
    }

    pub fn new() -> (r: BufferSlot)
        ensures
            r.held() is None,
    {
        BufferSlot { buf: None }
    }

    /// An empty buffer: the held one, cleared, or a fresh one. The slot is
    /// left empty until the buffer comes back.
    pub fn take(&mut self) -> (r: String)
        ensures
            r@ == Seq::<char>::empty(),
            final(self).held() is None,
    {
        let mut held = None;
        std::mem::swap(&mut self.buf, &mut held);
        match held {
            Some(mut b) => {
                clear_text(&mut b);
                b
            },
            None => String::new(),
        }
    }

    /// Keeps `buf` for the next render when the slot is empty; otherwise the
    /// slot keeps what it holds.
    pub fn give_back(&mut self, buf: String)
        ensures
            old(self).held() is None ==> final(self).held() == Some(buf@),
            old(self).held() is Some ==> final(self).held() == old(self).held(),
    {
        if self.buf.is_none() {
            self.buf = Some(buf);
        }
    }
}

} // verus!
