use vstd::prelude::*;

verus! {

/// A `//` comment kept as part of an alg, up to but not including the
/// newline that ends it.
#[derive(Debug, PartialEq)]
pub struct LineComment {
    text: String,
}

impl View for LineComment {
    type V = Seq<char>;

    closed spec fn view(&self) -> Seq<char> {
        self.text@
    }
}

impl LineComment {
    /// Accepts the comment text (without the leading `//`); rejects text
    /// that holds a newline, which could not round-trip.
    pub fn try_new(s: &str) -> (r: Result<LineComment, String>)
        ensures
            r matches Ok(c) ==> c@ == s@ && !s@.contains('\n'),
            r is Err <==> s@.contains('\n'),
    {
        if contains_newline(s) {
            Err("Line comment cannot contain a newline.".to_owned())
        } else {
            Ok(LineComment { text: s.to_owned() })
        }
    }

    /// A comment is its own inverse.
    pub fn invert(&self) -> (r: LineComment)
        ensures
            r@ == self@,
    {
        self.clone()
    }

    pub fn text(&self) -> (r: &str)
        ensures
            r@ == self@,
    {
        self.text.as_str()
    }
}

impl Clone for LineComment {
    fn clone(&self) -> (r: Self)
        ensures
            r@ == self@,
    {
        LineComment { text: self.text.clone() }
    }
}

/// Whether the string holds a newline character.
fn contains_newline(s: &str) -> (r: bool)
    ensures
        r == s@.contains('\n'),
{
    let len: usize = s.unicode_len();
    let mut i: usize = 0;
    while i < len
        invariant
            0 <= i <= len,
            len == s@.len(),
            forall|j: int| 0 <= j < i ==> s@[j] != '\n',
        decreases len - i,
    {
        if s.get_char(i) == '\n' {
            assert(s@.contains('\n'));
            return true;
        }
        i = i + 1;
    }
    assert(forall|j: int| 0 <= j < s@.len() ==> s@[j] != '\n');
    false
}

} // verus!
