//! Where rendered text goes: a growing buffer, possibly with a limit.
use vstd::prelude::*;

verus! {

/// Why a write was refused.
#[derive(Clone, Copy, PartialEq, Eq, Debug)]
pub enum SinkError {
    /// The text would not fit within the sink's limit.
    Full,
}

/// An append-only text buffer. A sink made with a limit holds at most that
/// many characters and refuses, whole, any write that would go past it.
pub struct Sink {
    buf: String,
    len: usize,
    limit: Option<usize>,
}

/// Relies on std's `String::push`: appends one character.
#[verifier::external_body]
pub(crate) fn push_char(s: &mut String, c: char)
    ensures
        final(s)@ == old(s)@.push(c),
{
    s.push(c);
}

impl Sink {
    /// The count kept for a limited sink is its length, within the limit.
    pub closed spec fn wf(&self) -> bool {
        match self.limit {
            Some(l) => self.len == self.buf@.len() && self.len <= l,
            None => true,
        }
    }

    /// What has been written so far.
    pub closed spec fn contents(&self) -> Seq<char> {
        self.buf@
    }

    /// The most characters the sink holds, if it has a limit.
    pub closed spec fn limit(&self) -> Option<usize> {
        self.limit
    }

    /// Whether `n` more characters fit.
    pub open spec fn has_room(&self, n: nat) -> bool {
        match self.limit() {
            Some(l) => self.contents().len() + n <= l,
            None => true,
        }
    }

    /// A well-formed sink is within its limit.
    pub proof fn lemma_within_limit(&self)
        requires
            self.wf(),
        ensures
            self.has_room(0),
    {
    }

    /// An empty sink without a limit.
    pub fn new() -> (r: Sink)
        ensures
            r.wf(),
            r.contents() == Seq::<char>::empty(),
            r.limit() is None,
    {
        Sink { buf: String::new(), len: 0, limit: None }
    }

    /// An empty sink that holds at most `limit` characters.
    pub fn with_limit(limit: usize) -> (r: Sink)
        ensures
            r.wf(),
            r.contents() == Seq::<char>::empty(),
            r.limit() == Some(limit),
    {
        Sink { buf: String::new(), len: 0, limit: Some(limit) }
    }

    pub fn as_str(&self) -> (r: &str)
        ensures
            r@ == self.contents(),
    {
        self.buf.as_str()
    }

    pub fn into_string(self) -> (r: String)
        ensures
            r@ == self.contents(),
    {
        self.buf
    }

    /// Appends `s` if it fits; otherwise writes nothing and fails.
    pub fn write_str(&mut self, s: &str) -> (r: Result<(), SinkError>)
        requires
            old(self).wf(),
        ensures
            final(self).wf(),
            r is Ok <==> old(self).has_room(s@.len()),
            r is Ok ==> final(self).contents() == old(self).contents() + s@,
            r is Err ==> final(self).contents() == old(self).contents(),
            final(self).limit() == old(self).limit(),
    {
        match self.limit {
            Some(l) => {
                let n = s.unicode_len();
                if n > l - self.len {
                    return Err(SinkError::Full);
                }
                self.buf.append(s);
                self.len = self.len + n;
            },
            None => {
                self.buf.append(s);
            },
        }
        Ok(())
    }

    /// Appends `c` if it fits; otherwise writes nothing and fails.
    pub fn write_char(&mut self, c: char) -> (r: Result<(), SinkError>)
        requires
            old(self).wf(),
        ensures
            final(self).wf(),
            r is Ok <==> old(self).has_room(1),
            r is Ok ==> final(self).contents() == old(self).contents().push(c),
            r is Err ==> final(self).contents() == old(self).contents(),
            final(self).limit() == old(self).limit(),
    {
        match self.limit {
            Some(l) => {
                if self.len == l {
                    return Err(SinkError::Full);
                }
                push_char(&mut self.buf, c);
                self.len = self.len + 1;
            },
            None => {
                push_char(&mut self.buf, c);
            },
        }
        Ok(())
    }
}

} // verus!
