use vstd::prelude::*;
use vstd::string::*;

verus! {

/// A run of `n` space characters.
pub open spec fn spaces(n: nat) -> Seq<char> {
    Seq::new(n, |i: int| ' ')
}

/// Appends exactly `n` spaces to `s`.
pub fn append_spaces(s: &mut String, n: usize)
    ensures
        final(s)@ == old(s)@ + spaces(n as nat),
{
    let mut i: usize = 0;
    while i < n
        invariant
            i <= n,
            s@ == old(s)@ + spaces(i as nat),
        decreases n - i,
    {
        s.append(" ");
        proof {
            reveal_strlit(" ");
            assert(spaces(i as nat) + " "@ =~= spaces((i + 1) as nat));
            assert(old(s)@ + spaces(i as nat) + " "@ =~= old(s)@ + spaces((i + 1) as nat));
        }
        i = i + 1;
    }
}

/// Byte-lexicographic order on names, expressed over their character
/// sequences; for valid UTF-8, code-point order and byte order agree.
pub open spec fn seq_le(a: Seq<char>, b: Seq<char>) -> bool
    decreases a.len(),
{
    if a.len() == 0 {
        true
    } else if b.len() == 0 {
        false
    } else if a[0] == b[0] {
        seq_le(a.drop_first(), b.drop_first())
    } else {
        (a[0] as int) < (b[0] as int)
    }
}

pub proof fn lemma_seq_le_refl(a: Seq<char>)
    ensures
        seq_le(a, a),
    decreases a.len(),
{
    if a.len() > 0 {
        lemma_seq_le_refl(a.drop_first());
    }
}

pub proof fn lemma_seq_le_total(a: Seq<char>, b: Seq<char>)
    ensures
        seq_le(a, b) || seq_le(b, a),
    decreases a.len(),
{
    if a.len() > 0 && b.len() > 0 {
        if a[0] == b[0] {
            lemma_seq_le_total(a.drop_first(), b.drop_first());
        } else {
            assert((a[0] as int) != (b[0] as int));
        }
    }
}

pub proof fn lemma_seq_le_antisym(a: Seq<char>, b: Seq<char>)
    requires
        seq_le(a, b),
        seq_le(b, a),
    ensures
        a == b,
    decreases a.len(),
{
    if a.len() == 0 {
        assert(b.len() == 0);
        assert(a =~= b);
    } else {
        assert(b.len() > 0);
        assert(a[0] == b[0]);
        lemma_seq_le_antisym(a.drop_first(), b.drop_first());
        assert(a.drop_first() == b.drop_first());
        assert forall|i: int| 0 <= i < a.len() implies a[i] == b[i] by {
            if i > 0 {
                assert(a[i] == a.drop_first()[i - 1]);
                assert(b[i] == b.drop_first()[i - 1]);
            }
        }
        assert(a.len() == b.len());
        assert(a =~= b);
    }
}

pub proof fn lemma_seq_le_trans(a: Seq<char>, b: Seq<char>, c: Seq<char>)
    requires
        seq_le(a, b),
        seq_le(b, c),
    ensures
        seq_le(a, c),
    decreases a.len(),
{
    if a.len() > 0 && b.len() > 0 && c.len() > 0 {
        if a[0] == b[0] && b[0] == c[0] {
            lemma_seq_le_trans(a.drop_first(), b.drop_first(), c.drop_first());
        }
    }
}

/// Dropping an equal prefix of length `i` does not change the order.
proof fn lemma_seq_le_skip(a: Seq<char>, b: Seq<char>, i: int)
    requires
        0 <= i <= a.len(),
        i <= b.len(),
        forall|j: int| 0 <= j < i ==> a[j] == b[j],
    ensures
        seq_le(a, b) == seq_le(a.skip(i), b.skip(i)),
    decreases i,
{
    if i > 0 {
        lemma_seq_le_skip(a.drop_first(), b.drop_first(), i - 1);
        assert(a.drop_first().skip(i - 1) =~= a.skip(i));
        assert(b.drop_first().skip(i - 1) =~= b.skip(i));
    } else {
        assert(a.skip(0) =~= a);
        assert(b.skip(0) =~= b);
    }
}

/// Decides `seq_le(a@, b@)` by scanning for the first differing character.
pub fn str_le(a: &str, b: &str) -> (r: bool)
    ensures
        r == seq_le(a@, b@),
{
    let alen = a.unicode_len();
    let blen = b.unicode_len();
    let mut i: usize = 0;
    loop
        invariant
            i <= alen,
            i <= blen,
            alen == a@.len(),
            blen == b@.len(),
            forall|j: int| 0 <= j < i ==> a@[j] == b@[j],
        decreases alen - i,
    {
        if i >= alen || i >= blen {
            proof {
                lemma_seq_le_skip(a@, b@, i as int);
            }
            return alen <= blen;
        }
        let ca = a.get_char(i);
        let cb = b.get_char(i);
        if ca != cb {
            proof {
                lemma_seq_le_skip(a@, b@, i as int);
            }
            return (ca as u32) < (cb as u32);
        }
        i = i + 1;
    }
}

/// The index of the last `/` in `s`, or `-1` when there is none.
pub open spec fn last_slash_at(s: Seq<char>) -> int
    decreases s.len(),
{
    if s.len() == 0 {
        -1
    } else if s[s.len() - 1] == '/' {
        s.len() - 1
    } else {
        last_slash_at(s.drop_last())
    }
}

pub proof fn lemma_last_slash_at_range(s: Seq<char>)
    ensures
        -1 <= last_slash_at(s) < s.len(),
    decreases s.len(),
{
    if s.len() > 0 && s[s.len() - 1] != '/' {
        lemma_last_slash_at_range(s.drop_last());
    }
}

/// The string without its run of trailing `/` characters.
pub open spec fn trim_trailing_slashes(s: Seq<char>) -> Seq<char>
    decreases s.len(),
{
    if s.len() > 0 && s[s.len() - 1] == '/' {
        trim_trailing_slashes(s.drop_last())
    } else {
        s
    }
}

/// Everything before the last `/`, trailing slashes ignored; empty when
/// nothing else remains.
pub open spec fn parent_spec(s: Seq<char>) -> Seq<char> {
    let t = trim_trailing_slashes(s);
    if last_slash_at(t) <= 0 {
        Seq::empty()
    } else {
        t.subrange(0, last_slash_at(t))
    }
}

/// Everything after the last `/`, trailing slashes ignored; the whole
/// trimmed string when it has no `/`.
pub open spec fn basename_spec(s: Seq<char>) -> Seq<char> {
    let t = trim_trailing_slashes(s);
    t.subrange(last_slash_at(t) + 1, t.len() as int)
}

/// The length of `s@` without its trailing `/` run.
fn trim_len(s: &str) -> (r: usize)
    ensures
        r <= s@.len(),
        trim_trailing_slashes(s@) == s@.subrange(0, r as int),
{
    let len = s.unicode_len();
    let mut end: usize = len;
    proof {
        assert(s@.subrange(0, len as int) =~= s@);
    }
    loop
        invariant
            end <= len,
            len == s@.len(),
            trim_trailing_slashes(s@) == trim_trailing_slashes(s@.subrange(0, end as int)),
        decreases end,
    {
        if end == 0 {
            proof {
                assert(s@.subrange(0, 0) =~= Seq::<char>::empty());
            }
            return 0;
        }
        let c = s.get_char(end - 1);
        proof {
            assert(s@.subrange(0, end as int)[end - 1] == s@[end - 1]);
        }
        if c != '/' {
            return end;
        }
        proof {
            assert(s@.subrange(0, end as int).drop_last() =~= s@.subrange(0, end - 1));
        }
        end = end - 1;
    }
}

/// The position after the last `/` of `s`, as a `usize` (0 when none).
fn find_after_last_slash(s: &str) -> (r: usize)
    ensures
        r == last_slash_at(s@) + 1,
{
    proof {
        lemma_last_slash_at_range(s@);
    }
    let len = s.unicode_len();
    let mut i: usize = len;
    proof {
        assert(s@.subrange(0, len as int) =~= s@);
    }
    loop
        invariant
            i <= len,
            len == s@.len(),
            last_slash_at(s@.subrange(0, i as int)) == last_slash_at(s@),
        decreases i,
    {
        proof {
            lemma_last_slash_at_range(s@.subrange(0, i as int));
        }
        if i == 0 {
            return 0;
        }
        let c = s.get_char(i - 1);
        proof {
            assert(s@.subrange(0, i as int)[i - 1] == s@[i - 1]);
        }
        if c == '/' {
            return i;
        }
        proof {
            assert(s@.subrange(0, i as int).drop_last() =~= s@.subrange(0, i - 1));
        }
        i = i - 1;
    }
}

/// The part of `s` before its last `/`, trailing slashes ignored; empty
/// when nothing else remains.
pub fn parent_of(s: &str) -> (r: String)
    ensures
        r@ == parent_spec(s@),
{
    let end = trim_len(s);
    let t = s.substring_char(0, end);
    proof {
        lemma_last_slash_at_range(t@);
    }
    let after = find_after_last_slash(t);
    if after <= 1 {
        proof {
            assert(parent_spec(s@) =~= Seq::<char>::empty());
        }
        String::new()
    } else {
        let sub = t.substring_char(0, after - 1);
        String::from_str(sub)
    }
}

/// The part of `s` after its last `/`, trailing slashes ignored; the
/// whole trimmed string when it has no `/`.
pub fn basename_of(s: &str) -> (r: String)
    ensures
        r@ == basename_spec(s@),
{
    let end = trim_len(s);
    let t = s.substring_char(0, end);
    proof {
        lemma_last_slash_at_range(t@);
    }
    let after = find_after_last_slash(t);
    let sub = t.substring_char(after, end);
    String::from_str(sub)
}

} // verus!
