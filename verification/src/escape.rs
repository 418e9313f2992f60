use vstd::prelude::*;

verus! {

/// How one character is written inside HTML text: `&`, `<` and `>` become
/// entities, every other character stays.
pub open spec fn escape_char(c: char) -> Seq<char> {
    if c == '&' {
        seq!['&', 'a', 'm', 'p', ';']
    } else if c == '<' {
        seq!['&', 'l', 't', ';']
    } else if c == '>' {
        seq!['&', 'g', 't', ';']
    } else {
        seq![c]
    }
}

/// `s` made safe to stand as text between HTML tags.
pub open spec fn html_text_escape(s: Seq<char>) -> Seq<char>
    decreases s.len(),
{
    if s.len() == 0 {
        Seq::empty()
    } else {
        html_text_escape(s.drop_last()) + escape_char(s.last())
    }
}

/// `html_escape::encode_text`: replaces each `&`, `<` and `>` of the text
/// by `&amp;`, `&lt;` and `&gt;` and leaves all other characters as they
/// are (the crate works on bytes, and these three bytes never occur inside
/// a multi-byte UTF-8 sequence, so this is the same per character).
#[verifier::external_body]
pub(crate) fn encode_text(s: &str) -> (r: String)
    ensures
        r@ == html_text_escape(s@),
{
    html_escape::encode_text(s).into_owned()
}

/// Escaped text never holds `<` or `>`, so it cannot open or close a tag.
pub proof fn law_escaped_has_no_tags(s: Seq<char>)
    ensures
        forall|i: int| 0 <= i < html_text_escape(s).len() ==> html_text_escape(s)[i] != '<'
            && html_text_escape(s)[i] != '>',
    decreases s.len(),
{
    if s.len() > 0 {
        law_escaped_has_no_tags(s.drop_last());
        let a = html_text_escape(s.drop_last());
        let b = escape_char(s.last());
        assert forall|i: int| 0 <= i < html_text_escape(s).len() implies html_text_escape(s)[i] != '<'
            && html_text_escape(s)[i] != '>' by {
            if i >= a.len() {
                assert(html_text_escape(s)[i] == b[i - a.len()]);
            } else {
                assert(html_text_escape(s)[i] == a[i]);
            }
        }
    }
}

/// Text without `&`, `<` and `>` is left as it is.
pub proof fn law_plain_text_unchanged(s: Seq<char>)
    requires
        forall|i: int| 0 <= i < s.len() ==> s[i] != '&' && s[i] != '<' && s[i] != '>',
    ensures
        html_text_escape(s) == s,
    decreases s.len(),
{
    if s.len() > 0 {
        law_plain_text_unchanged(s.drop_last());
        assert(s.drop_last() + seq![s.last()] =~= s);
    }
}

} // verus!
