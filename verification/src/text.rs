//! Small verified string utilities: equality and prefix tests over the
//! character views of `&str`, trimming of surrounding blanks, and decimal
//! rendering of counters for the game board.

use vstd::prelude::*;

verus! {

/// Relies on `String::push`: appends exactly the given character.
#[verifier::external_body]
pub fn push_char(s: &mut String, c: char)
    ensures
        final(s)@ == old(s)@.push(c),
{
    s.push(c);
}

/// Reports whether two string slices hold the same characters.
pub fn str_eq(a: &str, b: &str) -> (r: bool)
    ensures
        r == (a@ == b@),
{
    let alen = a.unicode_len();
    let blen = b.unicode_len();
    if alen != blen {
        return false;
    }
    let mut i: usize = 0;
    while i < alen
        invariant
            alen == a@.len(),
            alen == b@.len(),
            i <= alen,
            forall|j: int| 0 <= j < i ==> a@[j] == b@[j],
        decreases alen - i,
    {
        if a.get_char(i) != b.get_char(i) {
            return false;
        }
        i += 1;
    }
    proof {
        assert(a@ =~= b@);
    }
    true
}

/// Reports whether `p` is a prefix of `s`, character for character.
pub fn str_starts_with(s: &str, p: &str) -> (r: bool)
    ensures
        r == p@.is_prefix_of(s@),
{
    let slen = s.unicode_len();
    let plen = p.unicode_len();
    if plen > slen {
        return false;
    }
    let mut i: usize = 0;
    while i < plen
        invariant
            slen == s@.len(),
            plen == p@.len(),
            plen <= slen,
            i <= plen,
            forall|j: int| 0 <= j < i ==> s@[j] == p@[j],
        decreases plen - i,
    {
        if s.get_char(i) != p.get_char(i) {
            proof {
                assert(!p@.is_prefix_of(s@)) by {
                    if p@.is_prefix_of(s@) {
                        assert(p@[i as int] == s@.subrange(0, p@.len() as int)[i as int]);
                    }
                }
            }
            return false;
        }
        i += 1;
    }
    proof {
        assert(p@ =~= s@.subrange(0, p@.len() as int));
    }
    true
}

/// The characters of `s` from position `from` on.
pub fn str_suffix(s: &str, from: usize) -> (r: &str)
    requires
        from <= s@.len(),
    ensures
        r@ == s@.skip(from as int),
{
    let len = s.unicode_len();
    let r = s.substring_char(from, len);
    proof {
        assert(r@ =~= s@.skip(from as int));
    }
    r
}

/// A blank character for the purpose of trimming: space, tab, carriage
/// return or line feed.
pub open spec fn is_blank(c: char) -> bool {
    c == ' ' || c == '\t' || c == '\r' || c == '\n'
}

/// The sequence without its leading blanks.
pub open spec fn trim_front(s: Seq<char>) -> Seq<char>
    decreases s.len(),
{
    if s.len() > 0 && is_blank(s[0]) {
        trim_front(s.drop_first())
    } else {
        s
    }
}

/// The sequence without its trailing blanks.
pub open spec fn trim_back(s: Seq<char>) -> Seq<char>
    decreases s.len(),
{
    if s.len() > 0 && is_blank(s.last()) {
        trim_back(s.drop_last())
    } else {
        s
    }
}

/// The sequence without its leading and trailing blanks.
pub open spec fn spec_trim(s: Seq<char>) -> Seq<char> {
    trim_back(trim_front(s))
}

proof fn lemma_trim_front_skip(s: Seq<char>, i: int)
    requires
        0 <= i <= s.len(),
        forall|j: int| 0 <= j < i ==> is_blank(s[j]),
    ensures
        trim_front(s) == trim_front(s.skip(i)),
    decreases i,
{
    if i > 0 {
        assert(trim_front(s) == trim_front(s.drop_first()));
        assert(s.drop_first() =~= s.skip(1));
        lemma_trim_front_skip(s.skip(1), i - 1);
        assert(s.skip(1).skip(i - 1) =~= s.skip(i));
    } else {
        assert(s.skip(0) =~= s);
    }
}

proof fn lemma_trim_back_no_blanks(t: Seq<char>, end: int)
    requires
        0 <= end <= t.len(),
        forall|j: int| end <= j < t.len() ==> is_blank(t[j]),
        end > 0 ==> !is_blank(t[end - 1]),
    ensures
        trim_back(t) == t.subrange(0, end),
    decreases t.len(),
{
    if t.len() > end {
        assert(is_blank(t.last()));
        assert(trim_back(t) == trim_back(t.drop_last()));
        lemma_trim_back_no_blanks(t.drop_last(), end);
        assert(t.drop_last().subrange(0, end) =~= t.subrange(0, end));
    } else {
        assert(t.subrange(0, end) =~= t);
    }
}

/// Reports whether the character is a blank.
pub fn blank_char(c: char) -> (r: bool)
    ensures
        r == is_blank(c),
{
    c == ' ' || c == '\t' || c == '\r' || c == '\n'
}

/// The slice without its leading and trailing blanks.
pub fn str_trim(s: &str) -> (r: &str)
    ensures
        r@ == spec_trim(s@),
{
    let len = s.unicode_len();
    let mut start: usize = 0;
    while start < len && blank_char(s.get_char(start))
        invariant
            len == s@.len(),
            start <= len,
            forall|j: int| 0 <= j < start ==> is_blank(s@[j]),
        decreases len - start,
    {
        start += 1;
    }
    proof {
        lemma_trim_front_skip(s@, start as int);
        if start < len {
            assert(!is_blank(s@.skip(start as int)[0]));
        }
        assert(trim_front(s@) == s@.skip(start as int));
    }
    let mut end: usize = len;
    while end > start && blank_char(s.get_char(end - 1))
        invariant
            len == s@.len(),
            start <= end <= len,
            forall|j: int| end <= j < len ==> is_blank(s@[j]),
        decreases end,
    {
        end -= 1;
    }
    let r = s.substring_char(start, end);
    proof {
        let t = s@.skip(start as int);
        let cut = end as int - start as int;
        assert(forall|j: int| cut <= j < t.len() ==> is_blank(#[trigger] t[j]));
        if end > start {
            assert(!is_blank(t[cut - 1]));
        }
        lemma_trim_back_no_blanks(t, cut);
        assert(t.subrange(0, cut) =~= s@.subrange(start as int, end as int));
        assert(r@ == spec_trim(s@));
    }
    r
}

/// The decimal digit character for a value below ten.
pub open spec fn digit_char(d: nat) -> char {
    ((0x30 + d) as u8) as char
}

/// The decimal rendering of a natural number, most significant digit first.
pub open spec fn dec_digits(n: nat) -> Seq<char>
    decreases n,
{
    if n < 10 {
        seq![digit_char(n)]
    } else {
        dec_digits(n / 10).push(digit_char(n % 10))
    }
}

/// Appends the decimal rendering of `n` to the string.
pub fn append_dec(out: &mut String, n: usize)
    ensures
        final(out)@ == old(out)@ + dec_digits(n as nat),
{
    let mut rev: Vec<char> = Vec::new();
    let mut m: usize = n;
    while m >= 10
        invariant
            dec_digits(n as nat) == dec_digits(m as nat) + rev@.reverse(),
        decreases m,
    {
        let d: u8 = (m % 10) as u8;
        let c: char = (0x30u8 + d) as char;
        proof {
            let old_rev = rev@;
            assert(dec_digits(m as nat) == dec_digits((m as nat) / 10).push(digit_char(
                (m as nat) % 10,
            )));
            assert(old_rev.push(c).reverse() =~= seq![c] + old_rev.reverse());
            assert(dec_digits((m as nat) / 10).push(c) =~= dec_digits((m as nat) / 10) + seq![c]);
        }
        rev.push(c);
        m = m / 10;
    }
    let d: u8 = m as u8;
    let c: char = (0x30u8 + d) as char;
    push_char(out, c);
    proof {
        assert(dec_digits(m as nat) =~= seq![c]);
        assert(dec_digits(n as nat) =~= seq![c] + rev@.reverse());
    }
    let ghost target = old(out)@ + dec_digits(n as nat);
    let count = rev.len();
    let mut k: usize = 0;
    while k < count
        invariant
            count == rev@.len(),
            k <= count,
            out@ == old(out)@ + (seq![c] + rev@.reverse()).take(1 + k as int),
            dec_digits(n as nat) == seq![c] + rev@.reverse(),
        decreases count - k,
    {
        let next = rev[count - 1 - k];
        proof {
            let full = seq![c] + rev@.reverse();
            assert(rev@.reverse()[k as int] == rev@[count - 1 - k]);
            assert(full.take(1 + (k + 1) as int) =~= full.take(1 + k as int).push(next));
        }
        push_char(out, next);
        k += 1;
    }
    proof {
        assert((seq![c] + rev@.reverse()).take(1 + count as int) =~= seq![c] + rev@.reverse());
    }
}

} // verus!
