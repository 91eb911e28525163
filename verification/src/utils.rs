use vstd::prelude::*;
use vstd::string::StrSliceExecFns;

verus! {

/// Whether a byte is an ASCII letter or an underscore.
pub fn is_alpha(c: u8) -> (r: bool)
    ensures
        r == (65 <= c <= 90 || 97 <= c <= 122 || c == 95),
{
    (c >= 65 && c <= 90) || (c >= 97 && c <= 122) || c == 95
}

/// Whether a byte is an ASCII letter, an underscore, or a digit.
pub fn is_alphanumeric(c: u8) -> (r: bool)
    ensures
        r == (65 <= c <= 90 || 97 <= c <= 122 || c == 95 || 48 <= c <= 57),
{
    is_alpha(c) || (c >= 48 && c <= 57)
}

/// Relies on str::from_utf8 (with str::to_owned): decodes the bytes as
/// text when they are valid UTF-8, and gives the empty string otherwise.
#[verifier::external_body]
pub fn slice_to_string(slice: &[u8]) -> (r: String)
    ensures
        vstd::utf8::valid_utf8(slice@) ==> r@ == vstd::utf8::decode_utf8(slice@),
        !vstd::utf8::valid_utf8(slice@) ==> r@ == Seq::<char>::empty(),
{
    std::str::from_utf8(slice).unwrap_or("").to_string()
}

/// The text without one leading and one trailing double quote, where
/// each is present.
pub open spec fn spec_trim_quotes(s: Seq<char>) -> Seq<char> {
    let t = if s.len() >= 1 && s[0] == '"' {
        s.drop_first()
    } else {
        s
    };
    if t.len() >= 1 && t.last() == '"' {
        t.drop_last()
    } else {
        t
    }
}

/// Strip one leading and one trailing double quote, if present.
pub fn trim_quotes(s: &str) -> (r: &str)
    ensures
        r@ == spec_trim_quotes(s@),
{
    let n = s.unicode_len();
    if n == 0 {
        proof {
            assert(spec_trim_quotes(s@) =~= s@);
        }
        return s;
    }
    let first = s.get_char(0);
    let t = if first == '"' {
        let t = s.substring_char(1, n);
        proof {
            assert(t@ =~= s@.drop_first());
        }
        t
    } else {
        s
    };
    let m = t.unicode_len();
    if m >= 1 {
        let last = t.get_char(m - 1);
        if last == '"' {
            let r = t.substring_char(0, m - 1);
            proof {
                assert(r@ =~= t@.drop_last());
            }
            return r;
        }
    }
    proof {
        assert(spec_trim_quotes(s@) =~= t@);
    }
    t
}

} // verus!
