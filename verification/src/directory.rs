//! The decision logic of the durable directory store.
//!
//! The durable backend keeps one file per key inside a dedicated directory
//! and makes every write atomic: the bytes go to a freshly created file
//! with a random name under a reserved prefix, the file is synced, then
//! renamed over the key's file in one filesystem operation, and the
//! directory is synced so the rename survives a crash.  Construction
//! sweeps leftover artifacts older than a day.
//!
//! This module holds the store's decisions, verified: which names are
//! temporary artifacts, which directory entries are visible keys, which
//! leftover artifacts are stale enough to sweep, and how a fresh artifact
//! name is made.  The file operations themselves take `std::fs`, which the
//! embedding application supplies around these functions.

use vstd::prelude::*;
use vstd::string::*;

verus! {

/// The reserved prefix that marks a temporary write artifact's name.
pub open spec fn temp_prefix() -> Seq<char> {
    seq!['.', 't', 'm', 'p', '_']
}

/// Whether a file name denotes a temporary write artifact rather than a
/// key.
pub open spec fn is_temp_name(s: Seq<char>) -> bool {
    s.len() >= 5 && s.subrange(0, 5) == temp_prefix()
}

/// Decides whether a file name denotes a temporary write artifact.
pub fn name_is_temp(s: &str) -> (r: bool)
    ensures
        r == is_temp_name(s@),
{
    let n = s.unicode_len();
    if n < 5 {
        return false;
    }
    let r = s.get_char(0) == '.' && s.get_char(1) == 't' && s.get_char(2) == 'm' && s.get_char(3)
        == 'p' && s.get_char(4) == '_';
    proof {
        if r {
            assert(s@.subrange(0, 5) =~= temp_prefix());
        } else {
            assert(s@.subrange(0, 5) != temp_prefix());
        }
    }
    r
}

/// The visible keys among a directory's entry names: every name that does
/// not carry the temporary-artifact prefix, in their given order.
pub open spec fn visible_of(names: Seq<String>) -> Seq<String>
    decreases names.len(),
{
    if names.len() == 0 {
        Seq::empty()
    } else {
        let rest = visible_of(names.drop_last());
        if !is_temp_name(names.last()@) {
            rest.push(names.last())
        } else {
            rest
        }
    }
}

/// The visible keys are exactly the names without the reserved prefix:
/// every listed name comes from the directory and is no artifact, and
/// every non-artifact name of the directory is listed.
pub proof fn lemma_visible_of_exact(names: Seq<String>)
    ensures
        forall|j: int|
            0 <= j < visible_of(names).len() ==> !is_temp_name(#[trigger] visible_of(names)[j]@)
                && names.contains(visible_of(names)[j]),
        forall|j: int|
            0 <= j < names.len() && !is_temp_name(#[trigger] names[j]@) ==> visible_of(
                names,
            ).contains(names[j]),
    decreases names.len(),
{
    if names.len() > 0 {
        let dl = names.drop_last();
        lemma_visible_of_exact(dl);
        assert forall|j: int|
            0 <= j < visible_of(names).len() implies !is_temp_name(
            #[trigger] visible_of(names)[j]@,
        ) && names.contains(visible_of(names)[j]) by {
            if j < visible_of(dl).len() {
                assert(visible_of(names)[j] == visible_of(dl)[j]);
                assert(!is_temp_name(visible_of(dl)[j]@));
                assert(dl.contains(visible_of(dl)[j]));
                let l = choose|l: int| 0 <= l < dl.len() && dl[l] == visible_of(dl)[j];
                assert(dl[l] == names[l]);
                assert(names[l] == visible_of(names)[j]);
            } else {
                assert(names[names.len() - 1] == visible_of(names)[j]);
            }
        }
        assert forall|j: int|
            0 <= j < names.len() && !is_temp_name(#[trigger] names[j]@) implies visible_of(
            names,
        ).contains(names[j]) by {
            if j < names.len() - 1 {
                assert(dl[j] == names[j]);
                assert(visible_of(dl).contains(dl[j]));
                let l = choose|l: int| 0 <= l < visible_of(dl).len() && visible_of(dl)[l] == dl[j];
                assert(visible_of(names)[l] == names[j]);
            } else {
                assert(visible_of(names).last() == names[j]);
            }
        }
    }
}

/// Keeps exactly the directory entries that are visible keys: every name
/// that does not carry the temporary-artifact prefix, in their given
/// order.  Temporary artifacts never appear in a key listing.
pub fn visible_keys(names: Vec<String>) -> (r: Vec<String>)
    ensures
        r@ == visible_of(names@),
{
    let n = names.len();
    let mut r: Vec<String> = Vec::new();
    let mut i: usize = 0;
    while i < n
        invariant
            n == names@.len(),
            0 <= i <= n,
            r@ == visible_of(names@.subrange(0, i as int)),
        decreases n - i,
    {
        proof {
            assert(names@.subrange(0, i + 1).drop_last() =~= names@.subrange(0, i as int));
            assert(names@.subrange(0, i + 1).last() == names@[i as int]);
        }
        if !name_is_temp(names[i].as_str()) {
            r.push(names[i].clone());
        }
        i = i + 1;
    }
    proof {
        assert(names@.subrange(0, n as int) =~= names@);
    }
    r
}

/// Decides whether a leftover artifact is stale enough to sweep: strictly
/// older than a day, measured in whole seconds since its last
/// modification.  Younger artifacts are left alone; they might belong to a
/// write still in flight in another process.
pub fn artifact_is_stale(elapsed_secs: u64) -> (r: bool)
    ensures
        r == (elapsed_secs > 86400),
{
    elapsed_secs > 86400
}

/// The decimal digit characters.
pub open spec fn digit_char(d: nat) -> char {
    if d == 0 {
        '0'
    } else if d == 1 {
        '1'
    } else if d == 2 {
        '2'
    } else if d == 3 {
        '3'
    } else if d == 4 {
        '4'
    } else if d == 5 {
        '5'
    } else if d == 6 {
        '6'
    } else if d == 7 {
        '7'
    } else if d == 8 {
        '8'
    } else {
        '9'
    }
}

/// The decimal digits of `n`, most significant first.
pub open spec fn dec_digits(n: nat) -> Seq<char>
    decreases n,
{
    if n < 10 {
        seq![digit_char(n)]
    } else {
        dec_digits(n / 10).push(digit_char(n % 10))
    }
}

/// The name a write artifact gets when the random draw came out as `n`:
/// the reserved prefix followed by `n` in decimal.
pub open spec fn temp_name(n: nat) -> Seq<char> {
    temp_prefix() + dec_digits(n)
}

/// The string for one decimal digit.
fn digit_str(d: u128) -> (r: &'static str)
    requires
        d < 10,
    ensures
        r@ == seq![digit_char(d as nat)],
{
    proof {
        reveal_strlit("0");
        reveal_strlit("1");
        reveal_strlit("2");
        reveal_strlit("3");
        reveal_strlit("4");
        reveal_strlit("5");
        reveal_strlit("6");
        reveal_strlit("7");
        reveal_strlit("8");
        reveal_strlit("9");
    }
    let r = if d == 0 {
        "0"
    } else if d == 1 {
        "1"
    } else if d == 2 {
        "2"
    } else if d == 3 {
        "3"
    } else if d == 4 {
        "4"
    } else if d == 5 {
        "5"
    } else if d == 6 {
        "6"
    } else if d == 7 {
        "7"
    } else if d == 8 {
        "8"
    } else {
        "9"
    };
    proof {
        assert(r@ =~= seq![digit_char(d as nat)]);
    }
    r
}

/// Appends the decimal digits of `n` to the string.
fn append_decimal(out: &mut String, n: u128)
    ensures
        final(out)@ == old(out)@ + dec_digits(n as nat),
    decreases n,
{
    if n < 10 {
        out.append(digit_str(n));
    } else {
        append_decimal(out, n / 10);
        out.append(digit_str(n % 10));
        proof {
            assert(old(out)@ + dec_digits((n / 10) as nat) + seq![
                digit_char((n % 10) as nat),
            ] =~= old(out)@ + dec_digits(n as nat));
        }
    }
}

/// Relies on `rand::random`: draws a fresh 128-bit value from the
/// thread-local generator.  Nothing is promised of which value comes back.
#[verifier::external_body]
fn random_u128() -> u128 {
    rand::random::<u128>()
}

/// Makes the name for a fresh temporary write artifact: the reserved
/// prefix followed by a random 128-bit value in decimal.  Whatever the
/// draw, the name carries the prefix, so it can never collide with a
/// visible key and never appears in a key listing.
pub fn fresh_temp_name() -> (r: String)
    ensures
        is_temp_name(r@),
        exists|n: nat| r@ == temp_name(n),
{
    let draw = random_u128();
    let mut out = String::new();
    proof {
        reveal_strlit(".tmp_");
        assert(".tmp_"@ =~= temp_prefix());
    }
    out.append(".tmp_");
    append_decimal(&mut out, draw);
    proof {
        assert(out@ == temp_name(draw as nat));
        assert(out@.subrange(0, 5) =~= temp_prefix());
    }
    out
}

/// A temporary artifact's name never equals a visible key's name: the
/// artifact carries the reserved prefix and the visible key does not.
pub proof fn lemma_artifact_never_a_visible_key(artifact: Seq<char>, key: Seq<char>)
    requires
        is_temp_name(artifact),
        !is_temp_name(key),
    ensures
        artifact != key,
{
}

/// Distinct random draws give distinct artifact names, so a write in
/// flight never reuses another write's artifact.
pub proof fn lemma_temp_names_distinct(a: nat, b: nat)
    requires
        a != b,
    ensures
        temp_name(a) != temp_name(b),
{
    lemma_dec_digits_injective(a, b);
    let da = dec_digits(a);
    let db = dec_digits(b);
    if da.len() != db.len() {
        assert(temp_name(a).len() != temp_name(b).len());
    } else {
        let i = choose|i: int| 0 <= i < da.len() && da[i] != db[i];
        assert(temp_name(a)[5 + i] == da[i]);
        assert(temp_name(b)[5 + i] == db[i]);
    }
}

/// The decimal representation is injective.
proof fn lemma_dec_digits_injective(a: nat, b: nat)
    requires
        a != b,
    ensures
        dec_digits(a) != dec_digits(b) && (dec_digits(a).len() != dec_digits(b).len() || (exists|
            i: int,
        | 0 <= i < dec_digits(a).len() && dec_digits(a)[i] != dec_digits(b)[i])),
    decreases a + b,
{
    let da = dec_digits(a);
    let db = dec_digits(b);
    if a < 10 && b < 10 {
        assert(da[0] != db[0]);
    } else if a < 10 {
        lemma_dec_digits_len_ge_2(b);
        assert(da.len() != db.len());
    } else if b < 10 {
        lemma_dec_digits_len_ge_2(a);
        assert(da.len() != db.len());
    } else {
        if a % 10 != b % 10 {
            assert(da.last() != db.last());
            if da.len() == db.len() {
                assert(da[da.len() - 1] != db[db.len() - 1]);
            }
        } else {
            lemma_dec_digits_injective(a / 10, b / 10);
            let pa = dec_digits(a / 10);
            let pb = dec_digits(b / 10);
            if pa.len() != pb.len() {
                assert(da.len() != db.len());
            } else {
                let i = choose|i: int| 0 <= i < pa.len() && pa[i] != pb[i];
                assert(da[i] != db[i]);
            }
        }
    }
}

/// Every value has at least one decimal digit.
proof fn lemma_dec_digits_nonempty(n: nat)
    ensures
        dec_digits(n).len() >= 1,
    decreases n,
{
    if n >= 10 {
        lemma_dec_digits_nonempty(n / 10);
    }
}

/// A value of ten or more has at least two decimal digits.
proof fn lemma_dec_digits_len_ge_2(n: nat)
    requires
        n >= 10,
    ensures
        dec_digits(n).len() >= 2,
{
    lemma_dec_digits_nonempty(n / 10);
}

} // verus!
