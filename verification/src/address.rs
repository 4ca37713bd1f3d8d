//! Addresses of the task store: their scheme, and what they name.

use vstd::prelude::*;
use vstd::string::*;

use crate::listing::{entries, lemma_filter_lists, lemma_lists_same, lists};

verus! {

/// `c` counts wherever it stands in an address: it is no tab and no line break.
pub open spec fn counts(c: char) -> bool {
    c != '\t' && c != '\n' && c != '\r'
}

/// What counts of an address.
pub open spec fn unbroken(address: Seq<char>) -> Seq<char> {
    address.filter(|c: char| counts(c))
}

/// `s` without the spaces and control characters that it begins with.
pub open spec fn behind_blanks(s: Seq<char>) -> Seq<char>
    decreases s.len(),
{
    if s.len() > 0 && s.first() <= ' ' {
        behind_blanks(s.drop_first())
    } else {
        s
    }
}

/// `s` without the spaces and control characters that it ends with.
pub open spec fn before_blanks(s: Seq<char>) -> Seq<char>
    decreases s.len(),
{
    if s.len() > 0 && s.last() <= ' ' {
        before_blanks(s.drop_last())
    } else {
        s
    }
}

/// `s` begins with the scheme of the task store, in letters of either case.
pub open spec fn has_scheme(s: Seq<char>) -> bool {
    &&& s.len() >= 6
    &&& s[0] == 'r' || s[0] == 'R'
    &&& s[1] == 'e' || s[1] == 'E'
    &&& s[2] == 'd' || s[2] == 'D'
    &&& s[3] == 'i' || s[3] == 'I'
    &&& s[4] == 's' || s[4] == 'S'
    &&& s[5] == ':'
}

/// An address with the scheme of the task store.
pub open spec fn for_redis(address: Seq<char>) -> bool {
    has_scheme(behind_blanks(unbroken(address)))
}

/// What follows the first two slashes in a row; nothing where there are none.
pub open spec fn behind_slashes(s: Seq<char>) -> Seq<char>
    decreases s.len(),
{
    if s.len() < 2 {
        Seq::empty()
    } else if s[0] == '/' && s[1] == '/' {
        s.skip(2)
    } else {
        behind_slashes(s.drop_first())
    }
}

/// `c` ends the part of an address that names the host.
pub open spec fn ends_authority(c: char) -> bool {
    c == '/' || c == '?' || c == '#'
}

/// What comes before the path, the query and the fragment.
pub open spec fn before_path(s: Seq<char>) -> Seq<char>
    decreases s.len(),
{
    if s.len() == 0 || ends_authority(s.first()) {
        Seq::empty()
    } else {
        seq![s.first()] + before_path(s.drop_first())
    }
}

/// The part of an address that names the user, the password, the host and the
/// port.
pub open spec fn authority(address: Seq<char>) -> Seq<char> {
    before_path(behind_slashes(before_blanks(unbroken(address))))
}

/// From its `n`-th character on, `s` begins with a port and names no user.
pub open spec fn port_at(s: Seq<char>, n: int) -> bool {
    &&& n + 1 < s.len()
    &&& s[n] == ':'
    &&& '0' <= s[n + 1] <= '9'
    &&& forall|i: int| n <= i < s.len() ==> #[trigger] s[i] != '@'
}

/// An address that names a port but neither a host nor a user nor a password.
pub open spec fn hostless(address: Seq<char>) -> bool {
    let a = authority(address);
    ||| port_at(a, 0)
    ||| port_at(a, 1) && a[0] == '@'
    ||| port_at(a, 2) && a[0] == ':' && a[1] == '@'
}

/// An address whose part that names the host and the user is longer than can be
/// counted in 32 bits, one of them for the sign.
pub open spec fn overlong(address: Seq<char>) -> bool {
    authority(address).len() > 0x7fff_ffff
}

/// What counts of an address.
fn find_unbroken(address: &str) -> (s: Vec<char>)
    ensures
        s@ == unbroken(address@),
{
    let ghost all = address@;
    let mut s: Vec<char> = Vec::new();
    let n: usize = address.unicode_len();
    let mut i: usize = 0;
    assert(unbroken(all.take(0)) =~= Seq::empty()) by {
        reveal(Seq::filter);
    }
    while i < n
        invariant
            i <= n,
            n == all.len(),
            all == address@,
            s@ == unbroken(all.take(i as int)),
        decreases n - i,
    {
        let c = address.get_char(i);
        proof {
            all.take(i as int).lemma_filter_push(c, |c: char| counts(c));
            assert(all.take(i + 1) =~= all.take(i as int).push(c));
        }
        if c != '\t' && c != '\n' && c != '\r' {
            s.push(c);
        }
        i += 1;
    }
    assert(all.take(n as int) =~= all);
    s
}

/// Says whether an address has the scheme of the task store.
pub fn is_for_redis(address: &str) -> (r: bool)
    ensures
        r == for_redis(address@),
{
    let s = find_unbroken(address);
    let mut k: usize = 0;
    assert(s@.skip(0) =~= s@);
    while k < s.len() && s[k] <= ' '
        invariant
            k <= s.len(),
            behind_blanks(s@) == behind_blanks(s@.skip(k as int)),
        decreases s.len() - k,
    {
        assert(s@.skip(k as int).drop_first() =~= s@.skip(k + 1));
        k += 1;
    }
    assert(behind_blanks(s@) == s@.skip(k as int));
    s.len() - k >= 6 && (s[k] == 'r' || s[k] == 'R') && (s[k + 1] == 'e' || s[k + 1] == 'E') && (s[k
        + 2] == 'd' || s[k + 2] == 'D') && (s[k + 3] == 'i' || s[k + 3] == 'I') && (s[k + 4] == 's'
        || s[k + 4] == 'S') && s[k + 5] == ':'
}

/// The part of an address that names the user, the password, the host and the
/// port.
fn find_authority(address: &str) -> (r: Vec<char>)
    ensures
        r@ == authority(address@),
{
    let mut s = find_unbroken(address);
    while s.len() > 0 && s[s.len() - 1] <= ' '
        invariant
            before_blanks(s@) == before_blanks(unbroken(address@)),
        decreases s.len(),
    {
        s.pop();
    }
    assert(before_blanks(s@) == s@);
    let mut k: usize = 0;
    assert(s@.skip(0) =~= s@);
    while s.len() - k >= 2 && !(s[k] == '/' && s[k + 1] == '/')
        invariant
            k <= s.len(),
            behind_slashes(s@) == behind_slashes(s@.skip(k as int)),
        decreases s.len() - k,
    {
        assert(s@.skip(k as int).drop_first() =~= s@.skip(k + 1));
        k += 1;
    }
    let mut r: Vec<char> = Vec::new();
    if s.len() - k < 2 {
        return r;
    }
    assert(s@.skip(k as int).skip(2) =~= s@.skip(k + 2));
    let ghost t = behind_slashes(s@);
    let mut j: usize = k + 2;
    while j < s.len() && !(s[j] == '/' || s[j] == '?' || s[j] == '#')
        invariant
            k + 2 <= j <= s.len(),
            t == s@.skip(k + 2),
            before_path(t) == r@ + before_path(s@.skip(j as int)),
        decreases s.len() - j,
    {
        let c = s[j];
        assert(s@.skip(j as int).drop_first() =~= s@.skip(j + 1));
        assert(r@ + (seq![c] + before_path(s@.skip(j + 1))) =~= r@.push(c) + before_path(
            s@.skip(j + 1),
        ));
        r.push(c);
        j += 1;
    }
    r
}

/// Says whether some characters begin with a port from the `n`-th on and name
/// no user.
fn has_port_at(s: &Vec<char>, n: usize) -> (r: bool)
    ensures
        r == port_at(s@, n as int),
{
    if s.len() < 2 || n > s.len() - 2 || s[n] != ':' || s[n + 1] < '0' || s[n + 1] > '9' {
        return false;
    }
    let mut i: usize = n;
    while i < s.len()
        invariant
            n <= i <= s.len(),
            forall|j: int| n <= j < i ==> #[trigger] s@[j] != '@',
        decreases s.len() - i,
    {
        if s[i] == '@' {
            return false;
        }
        i += 1;
    }
    true
}

/// Says whether an address names a port but neither a host nor a user nor a
/// password.
pub fn is_hostless(address: &str) -> (r: bool)
    ensures
        r == hostless(address@),
{
    let a = find_authority(address);
    has_port_at(&a, 0) || (has_port_at(&a, 1) && a[0] == '@') || (has_port_at(&a, 2) && a[0] == ':'
        && a[1] == '@')
}

/// Says whether the part of an address that names the host and the user is
/// longer than can be counted.
pub fn is_overlong(address: &str) -> (r: bool)
    ensures
        r == overlong(address@),
{
    find_authority(address).len() > 0x7fff_ffff
}

/// Of an address exactly the tabs and the line breaks do not count; all else
/// does, in its order.
pub proof fn only_tabs_and_breaks_do_not_count(address: Seq<char>) -> (left: Seq<int>)
    ensures
        lists(
            left,
            address.len() as int,
            |i: int| address[i] != '\t' && address[i] != '\n' && address[i] != '\r',
        ),
        unbroken(address) == entries(address, left),
{
    let p = |c: char| counts(c);
    let left = lemma_filter_lists(address, p);
    lemma_lists_same(
        left,
        address.len() as int,
        |i: int| p(address[i]),
        |i: int| address[i] != '\t' && address[i] != '\n' && address[i] != '\r',
    );
    left
}

/// Exactly the blanks at the beginning, or at the end, are cut off.
pub proof fn only_blanks_at_the_ends_are_cut(s: Seq<char>) -> (r: (int, int))
    ensures
        0 <= r.0 <= s.len(),
        behind_blanks(s) == s.skip(r.0),
        forall|i: int| 0 <= i < r.0 ==> #[trigger] s[i] <= ' ',
        r.0 < s.len() ==> s[r.0] > ' ',
        0 <= r.1 <= s.len(),
        before_blanks(s) == s.take(r.1),
        forall|i: int| r.1 <= i < s.len() ==> #[trigger] s[i] <= ' ',
        r.1 > 0 ==> s[r.1 - 1] > ' ',
    decreases s.len(),
{
    assert(s.skip(0) =~= s);
    assert(s.take(s.len() as int) =~= s);
    let a = if s.len() > 0 && s.first() <= ' ' {
        let a = only_blanks_at_the_ends_are_cut(s.drop_first()).0;
        assert(s.drop_first().skip(a) =~= s.skip(a + 1));
        assert forall|i: int| 0 <= i < a + 1 implies #[trigger] s[i] <= ' ' by {
            if i > 0 {
                assert(s.drop_first()[i - 1] == s[i]);
            }
        }
        a + 1
    } else {
        0
    };
    let b = if s.len() > 0 && s.last() <= ' ' {
        let b = only_blanks_at_the_ends_are_cut(s.drop_last()).1;
        assert(s.drop_last().take(b) =~= s.take(b));
        assert forall|i: int| b <= i < s.len() implies #[trigger] s[i] <= ' ' by {
            if i < s.len() - 1 {
                assert(s.drop_last()[i] == s[i]);
            }
        }
        b
    } else {
        s.len() as int
    };
    (a, b)
}

/// The host is named behind the first two slashes in a row, and nowhere where
/// there are none.
pub proof fn the_host_is_behind_the_first_slashes(s: Seq<char>, p: int)
    ensures
        0 <= p && p + 1 < s.len() && s[p] == '/' && s[p + 1] == '/' && (forall|i: int|
            0 <= i < p ==> !(#[trigger] s[i] == '/' && s[i + 1] == '/')) ==> behind_slashes(s)
            == s.skip(p + 2),
        (forall|i: int| 0 <= i < s.len() - 1 ==> !(#[trigger] s[i] == '/' && s[i + 1] == '/'))
            ==> behind_slashes(s).len() == 0,
    decreases s.len(),
{
    if s.len() >= 2 && !(s[0] == '/' && s[1] == '/') {
        let t = s.drop_first();
        the_host_is_behind_the_first_slashes(t, p - 1);
        if 0 <= p && p + 1 < s.len() && s[p] == '/' && s[p + 1] == '/' && (forall|i: int|
            0 <= i < p ==> !(#[trigger] s[i] == '/' && s[i + 1] == '/')) {
            assert(p > 0);
            assert forall|i: int| 0 <= i < p - 1 implies !(#[trigger] t[i] == '/' && t[i + 1]
                == '/') by {
                assert(s[i + 1] == t[i]);
                assert(s[i + 2] == t[i + 1]);
                assert(!(s[i + 1] == '/' && s[i + 1 + 1] == '/'));
            }
            assert(t.skip(p - 1 + 2) =~= s.skip(p + 2));
        }
        if forall|i: int| 0 <= i < s.len() - 1 ==> !(#[trigger] s[i] == '/' && s[i + 1] == '/') {
            assert forall|i: int| 0 <= i < t.len() - 1 implies !(#[trigger] t[i] == '/' && t[i + 1]
                == '/') by {
                assert(s[i + 1] == t[i]);
                assert(s[i + 2] == t[i + 1]);
                assert(!(s[i + 1] == '/' && s[i + 1 + 1] == '/'));
            }
        }
    } else if s.len() >= 2 {
        assert(s[0] == '/' && s[0int + 1] == '/');
        if 0 < p {
            assert(!(forall|i: int| 0 <= i < p ==> !(#[trigger] s[i] == '/' && s[i + 1] == '/')));
        }
    }
}

/// The host is named up to the first slash, question mark or number sign, or to
/// the end where there is none.
pub proof fn the_host_ends_before_the_path(s: Seq<char>) -> (e: int)
    ensures
        0 <= e <= s.len(),
        before_path(s) == s.take(e),
        forall|i: int|
            0 <= i < e ==> #[trigger] s[i] != '/' && s[i] != '?' && s[i] != '#',
        e < s.len() ==> s[e] == '/' || s[e] == '?' || s[e] == '#',
    decreases s.len(),
{
    if s.len() == 0 || ends_authority(s.first()) {
        assert(s.take(0) =~= Seq::empty());
        0
    } else {
        let e = the_host_ends_before_the_path(s.drop_first());
        assert(seq![s.first()] + s.drop_first().take(e) =~= s.take(e + 1));
        assert forall|i: int| 0 <= i < e + 1 implies #[trigger] s[i] != '/' && s[i] != '?' && s[i]
            != '#' by {
            if i > 0 {
                assert(s.drop_first()[i - 1] == s[i]);
            }
        }
        e + 1
    }
}

/// An address lacks a host exactly when what names host and user is a colon and
/// a digit, with at most an empty user and an empty password before them and no
/// user after them.
pub proof fn an_address_lacks_a_host_when_it_begins_with_a_port(address: Seq<char>)
    ensures
        ({
            let a = before_path(behind_slashes(before_blanks(unbroken(address))));
            hostless(address) <==> exists|n: int|
                {
                    &&& 0 <= n <= 2
                    &&& n + 1 < a.len()
                    &&& #[trigger] a.take(n) =~= seq![':', '@'].skip(2 - n)
                    &&& a[n] == ':'
                    &&& '0' <= a[n + 1] <= '9'
                    &&& forall|i: int| n <= i < a.len() ==> #[trigger] a[i] != '@'
                }
        }),
        overlong(address) <==> before_path(
            behind_slashes(before_blanks(unbroken(address))),
        ).len() >= 0x8000_0000,
{
    let a = authority(address);
    let u = seq![':', '@'];
    if hostless(address) {
        if port_at(a, 0) {
            assert(a.take(0) =~= u.skip(2 - 0));
        } else if port_at(a, 1) && a[0] == '@' {
            assert(a.take(1) =~= u.skip(2 - 1));
        } else {
            assert(a.take(2) =~= u.skip(2 - 2));
        }
    }
    if exists|n: int|
        {
            &&& 0 <= n <= 2
            &&& n + 1 < a.len()
            &&& #[trigger] a.take(n) =~= seq![':', '@'].skip(2 - n)
            &&& a[n] == ':'
            &&& '0' <= a[n + 1] <= '9'
            &&& forall|i: int| n <= i < a.len() ==> #[trigger] a[i] != '@'
        } {
        let n = choose|n: int|
            {
                &&& 0 <= n <= 2
                &&& n + 1 < a.len()
                &&& #[trigger] a.take(n) =~= seq![':', '@'].skip(2 - n)
                &&& a[n] == ':'
                &&& '0' <= a[n + 1] <= '9'
                &&& forall|i: int| n <= i < a.len() ==> #[trigger] a[i] != '@'
            };
        if n == 1 {
            assert(a[0] == a.take(1)[0]);
        } else if n == 2 {
            assert(a[0] == a.take(2)[0]);
            assert(a[1] == a.take(2)[1]);
        }
    }
}

/// An address is one of the task store exactly when it begins, behind blanks,
/// with the name of its scheme and a colon, in letters of either case.
pub proof fn an_address_is_known_by_its_scheme(address: Seq<char>)
    ensures
        ({
            let s = behind_blanks(unbroken(address));
            let small = seq!['r', 'e', 'd', 'i', 's', ':'];
            let large = seq!['R', 'E', 'D', 'I', 'S', ':'];
            for_redis(address) <==> s.len() >= 6 && forall|i: int|
                0 <= i < 6 ==> #[trigger] s[i] == small[i] || s[i] == large[i]
        }),
{
    let s = behind_blanks(unbroken(address));
    let small = seq!['r', 'e', 'd', 'i', 's', ':'];
    let large = seq!['R', 'E', 'D', 'I', 'S', ':'];
    if s.len() >= 6 && forall|i: int| 0 <= i < 6 ==> #[trigger] s[i] == small[i] || s[i] == large[i] {
        assert(s[0] == small[0] || s[0] == large[0]);
        assert(s[1] == small[1] || s[1] == large[1]);
        assert(s[2] == small[2] || s[2] == large[2]);
        assert(s[3] == small[3] || s[3] == large[3]);
        assert(s[4] == small[4] || s[4] == large[4]);
        assert(s[5] == small[5] || s[5] == large[5]);
    }
}

} // verus!
