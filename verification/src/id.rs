use vstd::prelude::*;

verus! {

/// The characters a normalized identifier is made of: lower-case letters,
/// digits and underscores.
pub open spec fn is_id_char(c: char) -> bool {
    ('a' <= c && c <= 'z') || ('0' <= c && c <= '9') || c == '_'
}

/// A normalized identifier holds identifier characters only.
pub open spec fn valid_id(s: Seq<char>) -> bool {
    forall|i: int| 0 <= i < s.len() ==> is_id_char(s[i])
}

/// A normalized identifier. Identifiers are the sole correspondence key when
/// matching modules, functions and parameters across the two interface
/// versions; two identifiers correspond exactly when their normalized string
/// forms are equal.
#[derive(Debug)]
pub struct Id {
    text: String,
}

impl View for Id {
    type V = Seq<char>;

    closed spec fn view(&self) -> Seq<char> {
        self.text@
    }
}

impl Id {
    pub fn new(s: &str) -> (r: Id)
        ensures
            r@ == s@,
    {
        Id { text: s.to_owned() }
    }

    pub fn as_str(&self) -> (r: &str)
        ensures
            r@ == self@,
    {
        self.text.as_str()
    }

    /// Identifier equality: equality of the normalized string forms.
    pub fn eq_id(&self, other: &Id) -> (r: bool)
        ensures
            r == (self@ == other@),
    {
        self.text == other.text
    }
}

impl Clone for Id {
    fn clone(&self) -> (r: Self)
        ensures
            r == *self,
    {
        Id { text: self.text.clone() }
    }
}

} // verus!
