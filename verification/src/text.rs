//! Decoding raw command bytes into strings.
//!
//! The buffers in an event record hold raw bytes read from user memory, with
//! no guarantee of valid UTF-8. They are decoded lossily; the decoded
//! arguments are then joined with single spaces.

use vstd::prelude::*;

verus! {

/// The character sequence that lossy UTF-8 decoding yields for the given
/// bytes. The decoding depends on the bytes alone.
pub uninterp spec fn lossy_of(bytes: Seq<u8>) -> Seq<char>;

/// Relies on `String::from_utf8_lossy`: the result is a pure function of the
/// bytes; valid UTF-8 — in particular pure ASCII — passes through unchanged,
/// one character per byte; invalid sequences are replaced rather than
/// dropped, so the result is empty exactly when the input is.
#[verifier::external_body]
pub fn lossy_utf8(bytes: &[u8]) -> (r: String)
    ensures
        r@ == lossy_of(bytes@),
        (forall|i: int| 0 <= i < bytes@.len() ==> bytes@[i] < 0x80) ==> r@ == bytes@.map_values(
            |b: u8| b as char,
        ),
        r@.len() == 0 <==> bytes@.len() == 0,
{
    String::from_utf8_lossy(bytes).into_owned()
}

/// Relies on `String::push_str`: appends the given slice onto the end of the
/// string.
#[verifier::external_body]
pub fn append_str(s: &mut String, t: &str)
    ensures
        final(s)@ == old(s)@ + t@,
{
    s.push_str(t);
}

/// The given character sequences joined by one space between neighbours.
pub open spec fn spec_join_spaced(parts: Seq<Seq<char>>) -> Seq<char>
    decreases parts.len(),
{
    if parts.len() == 0 {
        Seq::empty()
    } else if parts.len() == 1 {
        parts[0]
    } else {
        spec_join_spaced(parts.drop_last()) + seq![' '] + parts.last()
    }
}

/// Joins the given strings with a single space between neighbours, in order.
pub fn join_spaced(parts: &Vec<String>) -> (r: String)
    ensures
        r@ == spec_join_spaced(parts@.map_values(|s: String| s@)),
{
    let ghost all = parts@.map_values(|s: String| s@);
    let mut r = String::new();
    let n = parts.len();
    let mut i: usize = 0;
    while i < n
        invariant
            i <= n,
            n == parts@.len(),
            all == parts@.map_values(|s: String| s@),
            r@ == spec_join_spaced(all.take(i as int)),
        decreases n - i,
    {
        if i > 0 {
            append_str(&mut r, " ");
            proof {
                reveal_strlit(" ");
                assert(" "@ =~= seq![' ']);
            }
        }
        append_str(&mut r, parts[i].as_str());
        proof {
            let prefix = all.take(i as int);
            let next = all.take(i + 1);
            assert(next.drop_last() =~= prefix);
            assert(next.last() == all[i as int]);
            if i > 0 {
                assert(r@ == spec_join_spaced(prefix) + seq![' '] + all[i as int]);
                assert(spec_join_spaced(next) == spec_join_spaced(prefix) + seq![' ']
                    + all[i as int]);
            } else {
                assert(next.len() == 1);
                assert(r@ =~= all[0]);
            }
        }
        i = i + 1;
    }
    proof {
        assert(all.take(n as int) =~= all);
    }
    r
}

} // verus!
