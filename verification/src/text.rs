//! Plain-text helpers the store is built on: lexicographic ordering of
//! strings (the order in which formatted ids are scanned), decimal rendering
//! of numeric ids, and the `"<type>:<sequence>"` shape of auto-generated
//! formatted ids, together with the injectivity facts that make formatted
//! ids unique.

use vstd::prelude::*;

verus! {

/// Strict lexicographic order on character sequences: a proper prefix comes
/// first, otherwise the first differing character decides.
pub open spec fn lex_lt(a: Seq<char>, b: Seq<char>) -> bool
    decreases a.len(),
{
    if b.len() == 0 {
        false
    } else if a.len() == 0 {
        true
    } else if a[0] != b[0] {
        a[0] < b[0]
    } else {
        lex_lt(a.skip(1), b.skip(1))
    }
}

/// The character sequence contains no `':'`.
pub open spec fn no_colon(s: Seq<char>) -> bool {
    forall|i: int| 0 <= i < s.len() ==> s[i] != ':'
}

/// The decimal digit character for `d` (meaningful for `0 <= d <= 9`).
pub open spec fn dec_digit(d: int) -> char {
    if d == 0 {
        '0'
    } else if d == 1 {
        '1'
    } else if d == 2 {
        '2'
    } else if d == 3 {
        '3'
    } else if d == 4 {
        '4'
    } else if d == 5 {
        '5'
    } else if d == 6 {
        '6'
    } else if d == 7 {
        '7'
    } else if d == 8 {
        '8'
    } else {
        '9'
    }
}

/// The usual decimal rendering of `n`, without leading zeroes.
pub open spec fn dec_str(n: nat) -> Seq<char>
    decreases n,
{
    if n < 10 {
        seq![dec_digit(n as int)]
    } else {
        dec_str(n / 10).push(dec_digit((n % 10) as int))
    }
}

/// The auto-generated formatted id for the `n`-th link of type `t`.
pub open spec fn auto_fid(t: Seq<char>, n: nat) -> Seq<char> {
    t + seq![':'] + dec_str(n)
}

pub proof fn lemma_lex_lt_trichotomy(a: Seq<char>, b: Seq<char>)
    ensures
        lex_lt(a, b) || lex_lt(b, a) || a == b,
    decreases a.len(),
{
    if b.len() == 0 {
        if a.len() == 0 {
            assert(a =~= b);
        }
    } else if a.len() == 0 {
    } else if a[0] != b[0] {
    } else {
        lemma_lex_lt_trichotomy(a.skip(1), b.skip(1));
        if a.skip(1) == b.skip(1) {
            assert(a.skip(1).len() == a.len() - 1);
            assert(b.skip(1).len() == b.len() - 1);
            assert(a.len() == b.len());
            assert forall|i: int| 0 <= i < a.len() implies a[i] == b[i] by {
                if i >= 1 {
                    assert(a[i] == a.skip(1)[i - 1]);
                    assert(b[i] == b.skip(1)[i - 1]);
                }
            }
            assert(a =~= b);
        }
    }
}

pub proof fn lemma_lex_lt_irreflexive(a: Seq<char>)
    ensures
        !lex_lt(a, a),
    decreases a.len(),
{
    if a.len() > 0 {
        lemma_lex_lt_irreflexive(a.skip(1));
    }
}

pub proof fn lemma_lex_lt_transitive(a: Seq<char>, b: Seq<char>, c: Seq<char>)
    requires
        lex_lt(a, b),
        lex_lt(b, c),
    ensures
        lex_lt(a, c),
    decreases a.len(),
{
    if b.len() == 0 {
    } else if a.len() == 0 {
    } else if c.len() == 0 {
    } else if a[0] == b[0] && b[0] == c[0] {
        lemma_lex_lt_transitive(a.skip(1), b.skip(1), c.skip(1));
    }
}

/// Rendered decimals consist of digit characters only.
pub proof fn lemma_dec_str_digits(n: nat)
    ensures
        forall|i: int|
            0 <= i < dec_str(n).len() ==> '0' <= #[trigger] dec_str(n)[i] && dec_str(n)[i] <= '9',
    decreases n,
{
    if n < 10 {
        assert(dec_str(n)[0] == dec_digit(n as int));
    } else {
        lemma_dec_str_digits(n / 10);
        assert forall|i: int|
            0 <= i < dec_str(n).len() implies '0' <= #[trigger] dec_str(n)[i] && dec_str(n)[i]
            <= '9' by {
            if i < dec_str(n).len() - 1 {
                assert(dec_str(n)[i] == dec_str(n / 10)[i]);
            } else {
                assert(dec_str(n)[i] == dec_digit((n % 10) as int));
            }
        }
    }
}

/// A rendered decimal never contains the separator character.
pub proof fn lemma_dec_str_no_colon(n: nat)
    ensures
        no_colon(dec_str(n)),
{
    lemma_dec_str_digits(n);
    assert forall|i: int| 0 <= i < dec_str(n).len() implies dec_str(n)[i] != ':' by {
        assert('0' <= dec_str(n)[i] && dec_str(n)[i] <= '9');
    }
}

pub proof fn lemma_dec_str_len(n: nat)
    ensures
        dec_str(n).len() >= 1,
        n >= 10 ==> dec_str(n).len() >= 2,
    decreases n,
{
    if n >= 10 {
        lemma_dec_str_len(n / 10);
    }
}

/// Two distinct numbers never render to the same decimal string.
pub proof fn lemma_dec_str_injective(a: nat, b: nat)
    requires
        dec_str(a) == dec_str(b),
    ensures
        a == b,
    decreases a,
{
    if a < 10 && b < 10 {
        assert(dec_str(a)[0] == dec_digit(a as int));
        assert(dec_str(b)[0] == dec_digit(b as int));
        assert(dec_digit(a as int) == dec_digit(b as int));
    } else if a < 10 {
        lemma_dec_str_len(b);
        assert(dec_str(a).len() == 1);
    } else if b < 10 {
        lemma_dec_str_len(a);
        assert(dec_str(b).len() == 1);
    } else {
        let da = dec_str(a / 10);
        let db = dec_str(b / 10);
        assert(dec_str(a) == da.push(dec_digit((a % 10) as int)));
        assert(dec_str(b) == db.push(dec_digit((b % 10) as int)));
        assert(dec_str(a).last() == dec_digit((a % 10) as int));
        assert(dec_str(b).last() == dec_digit((b % 10) as int));
        assert(dec_digit((a % 10) as int) == dec_digit((b % 10) as int));
        assert(a % 10 == b % 10);
        assert(da =~= dec_str(a).drop_last());
        assert(db =~= dec_str(b).drop_last());
        lemma_dec_str_injective(a / 10, b / 10);
        assert(a == (a / 10) * 10 + a % 10);
        assert(b == (b / 10) * 10 + b % 10);
    }
}

/// An auto-generated id always carries a separator, so it never equals a
/// caller-supplied (colon-free) name.
pub proof fn lemma_named_ne_auto(name: Seq<char>, t: Seq<char>, n: nat)
    requires
        no_colon(name),
    ensures
        name != auto_fid(t, n),
{
    if name == auto_fid(t, n) {
        assert(auto_fid(t, n)[t.len() as int] == ':');
        assert(name[t.len() as int] != ':');
    }
}

/// The auto-generated id determines both the type and the sequence number:
/// the digits after the last separator recover the sequence, what precedes
/// recovers the type.
pub proof fn lemma_auto_fid_injective(t1: Seq<char>, n1: nat, t2: Seq<char>, n2: nat)
    requires
        auto_fid(t1, n1) == auto_fid(t2, n2),
    ensures
        t1 == t2,
        n1 == n2,
{
    let s = auto_fid(t1, n1);
    let d1 = dec_str(n1);
    let d2 = dec_str(n2);
    lemma_dec_str_digits(n1);
    lemma_dec_str_digits(n2);
    lemma_dec_str_len(n1);
    lemma_dec_str_len(n2);
    assert(s.len() == t1.len() + 1 + d1.len());
    assert(auto_fid(t2, n2).len() == t2.len() + 1 + d2.len());
    assert(s[t1.len() as int] == ':');
    assert(auto_fid(t2, n2)[t2.len() as int] == ':');
    if d1.len() < d2.len() {
        let j = d2.len() - d1.len() - 1;
        assert(auto_fid(t2, n2)[t2.len() + 1 + j] == d2[j as int]);
        assert('0' <= d2[j as int] && d2[j as int] <= '9');
        assert(t2.len() + 1 + j == t1.len());
        assert(false);
    } else if d2.len() < d1.len() {
        let j = d1.len() - d2.len() - 1;
        assert(s[t1.len() + 1 + j] == d1[j as int]);
        assert('0' <= d1[j as int] && d1[j as int] <= '9');
        assert(t1.len() + 1 + j == t2.len());
        assert(false);
    }
    assert(t1.len() == t2.len());
    assert(t1 =~= t2) by {
        assert forall|i: int| 0 <= i < t1.len() implies t1[i] == t2[i] by {
            assert(auto_fid(t1, n1)[i] == t1[i]);
            assert(auto_fid(t2, n2)[i] == t2[i]);
        }
    }
    assert(auto_fid(t1, n1).len() == t1.len() + 1 + dec_str(n1).len());
    assert(auto_fid(t2, n2).len() == t2.len() + 1 + dec_str(n2).len());
    assert(dec_str(n1).len() == dec_str(n2).len());
    assert(dec_str(n1) =~= dec_str(n2)) by {
        assert forall|i: int| 0 <= i < dec_str(n1).len() implies dec_str(n1)[i] == dec_str(n2)[i] by {
            assert(auto_fid(t1, n1)[t1.len() + 1 + i] == dec_str(n1)[i]);
            assert(auto_fid(t2, n2)[t2.len() + 1 + i] == dec_str(n2)[i]);
        }
    }
    lemma_dec_str_injective(n1, n2);
}

/// Appends the decimal rendering of `n` to `s`.
fn push_dec(s: &mut String, n: u64)
    ensures
        final(s)@ == old(s)@ + dec_str(n as nat),
    decreases n,
{
    proof {
        reveal_strlit("0");
        reveal_strlit("1");
        reveal_strlit("2");
        reveal_strlit("3");
        reveal_strlit("4");
        reveal_strlit("5");
        reveal_strlit("6");
        reveal_strlit("7");
        reveal_strlit("8");
        reveal_strlit("9");
    }
    if n >= 10 {
        push_dec(s, n / 10);
    }
    let d: u64 = n % 10;
    let piece: &str = if d == 0 {
        "0"
    } else if d == 1 {
        "1"
    } else if d == 2 {
        "2"
    } else if d == 3 {
        "3"
    } else if d == 4 {
        "4"
    } else if d == 5 {
        "5"
    } else if d == 6 {
        "6"
    } else if d == 7 {
        "7"
    } else if d == 8 {
        "8"
    } else {
        "9"
    };
    assert(piece@ =~= seq![dec_digit(d as int)]);
    s.append(piece);
    proof {
        if n < 10 {
            assert(old(s)@ + seq![dec_digit(n as int)] =~= old(s)@ + dec_str(n as nat));
        } else {
            let prefix = old(s)@ + dec_str((n / 10) as nat);
            assert(prefix + seq![dec_digit((n % 10) as int)] =~= old(s)@ + dec_str(n as nat));
        }
    }
}

/// The decimal rendering of `n` as a fresh string.
pub fn u64_to_dec(n: u64) -> (s: String)
    ensures
        s@ == dec_str(n as nat),
{
    let mut s = String::new();
    push_dec(&mut s, n);
    proof {
        assert(Seq::<char>::empty() + dec_str(n as nat) =~= dec_str(n as nat));
    }
    s
}

/// Builds the `"<type>:<sequence>"` formatted id.
pub fn make_auto_fid(t: &str, n: u64) -> (s: String)
    ensures
        s@ == auto_fid(t@, n as nat),
{
    proof {
        reveal_strlit(":");
    }
    let mut s = String::from_str(t);
    s.append(":");
    assert(s@ =~= t@ + seq![':']);
    push_dec(&mut s, n);
    proof {
        assert((t@ + seq![':']) + dec_str(n as nat) =~= auto_fid(t@, n as nat));
    }
    s
}

/// Reports whether `s` contains the reserved separator character.
pub fn contains_colon(s: &str) -> (b: bool)
    ensures
        b == !no_colon(s@),
{
    let n: usize = s.unicode_len();
    let mut i: usize = 0;
    while i < n
        invariant
            0 <= i <= n,
            n == s@.len(),
            forall|j: int| 0 <= j < i ==> s@[j] != ':',
        decreases n - i,
    {
        if s.get_char(i) == ':' {
            return true;
        }
        i = i + 1;
    }
    false
}

/// Reports whether the two strings read the same.
pub fn str_eq(a: &str, b: &str) -> (r: bool)
    ensures
        r == (a@ == b@),
{
    let alen: usize = a.unicode_len();
    let blen: usize = b.unicode_len();
    if alen != blen {
        return false;
    }
    let mut i: usize = 0;
    while i < alen
        invariant
            0 <= i <= alen,
            alen == a@.len(),
            alen == b@.len(),
            forall|j: int| 0 <= j < i ==> a@[j] == b@[j],
        decreases alen - i,
    {
        if a.get_char(i) != b.get_char(i) {
            return false;
        }
        i = i + 1;
    }
    proof {
        assert(a@ =~= b@);
    }
    true
}

/// Decides `lex_lt(a, b)` by walking both strings in step.
pub fn str_lex_lt(a: &str, b: &str) -> (r: bool)
    ensures
        r == lex_lt(a@, b@),
{
    let alen: usize = a.unicode_len();
    let blen: usize = b.unicode_len();
    let mut i: usize = 0;
    proof {
        assert(a@.skip(0) =~= a@);
        assert(b@.skip(0) =~= b@);
    }
    loop
        invariant
            0 <= i <= alen,
            0 <= i <= blen,
            alen == a@.len(),
            blen == b@.len(),
            lex_lt(a@, b@) == lex_lt(a@.skip(i as int), b@.skip(i as int)),
        decreases alen - i,
    {
        if i >= blen {
            assert(b@.skip(i as int).len() == 0);
            return false;
        }
        if i >= alen {
            assert(a@.skip(i as int).len() == 0);
            assert(b@.skip(i as int).len() > 0);
            return true;
        }
        let ca = a.get_char(i);
        let cb = b.get_char(i);
        assert(a@.skip(i as int)[0] == a@[i as int]);
        assert(b@.skip(i as int)[0] == b@[i as int]);
        if ca != cb {
            return ca < cb;
        }
        proof {
            assert(a@.skip(i as int).skip(1) =~= a@.skip(i + 1));
            assert(b@.skip(i as int).skip(1) =~= b@.skip(i + 1));
        }
        i = i + 1;
    }
}

} // verus!
