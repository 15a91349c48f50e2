//! A template paired with its arguments, and `format` on strings.
use vstd::prelude::*;
use crate::render::{render, render_into};
use crate::sink::{Sink, SinkError};
use crate::value::FormatArg;

verus! {

broadcast use vstd::string::group_string_axioms;

/// The characters of `s`, in order.
fn chars_of(s: &str) -> (r: Vec<char>)
    ensures
        r@ == s@,
{
    let mut v: Vec<char> = Vec::new();
    for c in it: s.chars()
        invariant
            v@ == it.seq().take(it.index() as int),
    {
        v.push(c);
    }
    assert(v@ =~= s@);
    v
}

/// A template together with the values that fill its placeholders. Extra
/// values are ignored; a placeholder without a value shows nothing.
#[derive(Clone, Debug)]
pub struct Arguments<'a, T> {
    fmt: &'a str,
    args: &'a [T],
}

impl<'a, T: FormatArg> Arguments<'a, T> {
    pub closed spec fn template(&self) -> Seq<char> {
        self.fmt@
    }

    pub closed spec fn values(&self) -> Seq<T> {
        self.args@
    }

    /// The text that these arguments render to.
    pub open spec fn rendered(&self) -> Seq<char> {
        render(self.template(), self.values())
    }

    pub fn new(fmt: &'a str, args: &'a [T]) -> (r: Self)
        ensures
            r.template() == fmt@,
            r.values() == args@,
    {
        Arguments { fmt, args }
    }

    /// Writes the rendered text to `sink`. It fails exactly when the text
    /// does not fit; the sink then keeps what was written before the
    /// failing write, which is a start of that text.
    pub fn write_to(&self, sink: &mut Sink) -> (r: Result<(), SinkError>)
        requires
            old(sink).wf(),
        ensures
            final(sink).wf(),
            final(sink).limit() == old(sink).limit(),
            r is Ok <==> old(sink).has_room(self.rendered().len()),
            r is Ok ==> final(sink).contents() == old(sink).contents() + self.rendered(),
            final(sink).contents().is_prefix_of(old(sink).contents() + self.rendered()),
    {
        let t = chars_of(self.fmt);
        render_into(&t, self.args, sink)
    }

    /// The rendered text.
    pub fn to_string(&self) -> (r: String)
        ensures
            r@ == self.rendered(),
    {
        let mut sink = Sink::new();
        let w = self.write_to(&mut sink);
        assert(w is Ok);
        assert(sink.contents() =~= self.rendered());
        sink.into_string()
    }
}

/// Strings used as templates at run time.
pub trait AsStrFormatExt {
    /// The characters of the template.
    spec fn template(&self) -> Seq<char>;

    /// Fills the placeholders of `self` from `args`.
    fn format<T: FormatArg>(&self, args: &[T]) -> (r: String)
        ensures
            r@ == render(self.template(), args@),
    ;
}

impl AsStrFormatExt for str {
    open spec fn template(&self) -> Seq<char> {
        self@
    }

    fn format<T: FormatArg>(&self, args: &[T]) -> (r: String) {
        Arguments::new(self, args).to_string()
    }
}

impl AsStrFormatExt for String {
    open spec fn template(&self) -> Seq<char> {
        self@
    }

    fn format<T: FormatArg>(&self, args: &[T]) -> (r: String) {
        Arguments::new(self.as_str(), args).to_string()
    }
}

impl<'r, S: AsStrFormatExt + ?Sized> AsStrFormatExt for &'r S {
    open spec fn template(&self) -> Seq<char> {
        (**self).template()
    }

    fn format<T: FormatArg>(&self, args: &[T]) -> (r: String) {
        (**self).format(args)
    }
}

} // verus!
