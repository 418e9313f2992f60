use vstd::prelude::*;
use vstd::std_specs::cmp::PartialOrdSpec;
use crate::order::{lemma_text_less_asymmetric, lemma_text_less_irreflexive, lemma_text_less_total, text_compare, text_less};
use crate::text::chars_of;

verus! {

/// A lowercase hexadecimal digit.
pub open spec fn is_lower_hex(c: char) -> bool {
    ('0' <= c && c <= '9') || ('a' <= c && c <= 'f')
}

/// The hyphenated, lowercase text of a random (version 4, RFC 4122 variant)
/// UUID, such as `67e55044-10b1-426f-9247-bb680e5fe0c8`.
pub open spec fn is_v4_uuid_text(s: Seq<char>) -> bool {
    &&& s.len() == 36
    &&& forall|i: int|
        0 <= i < 36 ==> (if i == 8 || i == 13 || i == 18 || i == 23 {
            s[i] == '-'
        } else {
            is_lower_hex(s[i])
        })
    &&& s[14] == '4'
    &&& (s[19] == '8' || s[19] == '9' || s[19] == 'a' || s[19] == 'b')
}

/// Text of a fresh random UUID (`uuid::Uuid::new_v4`, written out by its
/// `Display` impl). The value depends on the random number generator; the
/// contract states only the shape that every outcome has: `new_v4` fixes the
/// version nibble to 4 and the variant bits to `10`, and `Display` writes the
/// hyphenated lowercase form.
#[verifier::external_body]
fn new_v4_uuid_text() -> (s: String)
    ensures
        is_v4_uuid_text(s@),
{
    uuid::Uuid::new_v4().to_string()
}

/// The key under which a shared text or directory is published.
#[derive(Clone, Eq, Ord, Hash, Debug)]
pub struct Key {
    key: String,
}

impl View for Key {
    type V = Seq<char>;

    closed spec fn view(&self) -> Seq<char> {
        self.key@
    }
}

impl Key {
    /// A fresh key: the text of a random UUID. (A width given when the UUID
    /// is formatted does not change this text, so the configured key length
    /// plays no part.)
    pub fn new() -> (k: Key)
        ensures
            is_v4_uuid_text(k@),
    {
        Key { key: new_v4_uuid_text() }
    }

    /// The key with the given text.
    pub fn from(s: &str) -> (k: Key)
        ensures
            k@ == s@,
    {
        Key { key: s.to_owned() }
    }

    /// The key's text.
    pub fn as_str(&self) -> (s: &str)
        ensures
            s@ == self@,
    {
        self.key.as_str()
    }

    /// The key's text, as an owned string.
    pub fn to_string(&self) -> (s: String)
        ensures
            s@ == self@,
    {
        self.key.clone()
    }

    /// A copy of the key.
    pub fn clone_key(&self) -> (k: Key)
        ensures
            k@ == self@,
    {
        Key { key: self.key.clone() }
    }

    /// Whether two keys have the same text.
    pub fn same(&self, other: &Key) -> (b: bool)
        ensures
            b == (self@ == other@),
    {
        self.key == other.key
    }
}

/// Keys made from texts are the same key exactly when the texts are equal:
/// `Key::from` keeps the text as it is (no trimming, no case folding), and
/// `Key::same` compares texts.
pub proof fn law_key_is_its_text(a: Key, b: Key, s: Seq<char>, t: Seq<char>)
    requires
        a@ == s,
        b@ == t,
    ensures
        (a@ == b@) <==> (s == t),
{
}

/// Keys are equal exactly when their texts are.
impl PartialEq for Key {
    fn eq(&self, other: &Key) -> (r: bool) {
        self.key == other.key
    }
}

impl vstd::std_specs::cmp::PartialEqSpecImpl for Key {
    open spec fn obeys_eq_spec() -> bool {
        true
    }

    open spec fn eq_spec(&self, other: &Key) -> bool {
        self@ == other@
    }
}

/// Keys order as their texts: character by character, a proper prefix
/// first (the order of `String`).
impl PartialOrd for Key {
    fn partial_cmp(&self, other: &Key) -> (r: Option<core::cmp::Ordering>) {
        let a = chars_of(self.key.as_str());
        let b = chars_of(other.key.as_str());
        let k = text_compare(&a, &b);
        proof {
            lemma_text_less_total(self@, other@);
        }
        if k < 0 {
            Some(core::cmp::Ordering::Less)
        } else if k == 0 {
            Some(core::cmp::Ordering::Equal)
        } else {
            Some(core::cmp::Ordering::Greater)
        }
    }
}

impl vstd::std_specs::cmp::PartialOrdSpecImpl for Key {
    open spec fn obeys_partial_cmp_spec() -> bool {
        true
    }

    open spec fn partial_cmp_spec(&self, other: &Key) -> Option<core::cmp::Ordering> {
        if text_less(self@, other@) {
            Some(core::cmp::Ordering::Less)
        } else if self@ == other@ {
            Some(core::cmp::Ordering::Equal)
        } else {
            Some(core::cmp::Ordering::Greater)
        }
    }
}

/// Keys order exactly as their texts: one comes first when its text comes
/// first, they compare equal when their texts are equal, and otherwise the
/// other comes first.
pub proof fn law_key_orders_as_its_text(a: Key, b: Key)
    ensures
        a.partial_cmp_spec(&b) == Some(core::cmp::Ordering::Less) <==> text_less(a@, b@),
        a.partial_cmp_spec(&b) == Some(core::cmp::Ordering::Equal) <==> a@ == b@,
        a.partial_cmp_spec(&b) == Some(core::cmp::Ordering::Greater) <==> text_less(b@, a@),
{
    lemma_text_less_total(a@, b@);
    lemma_text_less_asymmetric(a@, b@);
    lemma_text_less_irreflexive(a@);
}

} // verus!
