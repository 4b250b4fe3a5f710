//! Index writing: the key column of the cycle's batched upsert into the
//! vector index, and the content-addressed path under which a window's
//! encoded image is persisted — both keyed by the fingerprint, so identical
//! content is stored once and rewrites are byte-identical.

use vstd::prelude::*;

verus! {

use crate::types::Window;
use vstd::string::StringExecFns;

/// The fingerprints of a batch, in order: one index row key per window.
pub open spec fn keys_of(s: Seq<Window>) -> Seq<u64> {
    s.map_values(|w: Window| w.jpeg_metrohash)
}

/// The key column for one cycle's batched upsert: the fingerprint of each
/// changed window whose embedding call succeeded, in batch order. The caller
/// pairs it with the matching vectors; failed windows contribute no row, so
/// the index gains rows only for content some embedding succeeded for.
pub fn upsert_keys(changed: &Vec<Window>, ok: &Vec<bool>) -> (keys: Vec<u64>)
    requires
        ok@.len() == changed@.len(),
    ensures
        keys@ == keys_of(crate::dispatch::successes_of(changed@, ok@)),
{
    let n = changed.len();
    let mut keys: Vec<u64> = Vec::new();
    let mut i: usize = 0;
    proof {
        assert(changed@.take(0).len() == 0);
        assert(keys@ =~= keys_of(crate::dispatch::successes_of(changed@.take(0), ok@.take(0))));
    }
    while i < n
        invariant
            i <= n,
            n == changed@.len(),
            ok@.len() == changed@.len(),
            keys@ == keys_of(
                crate::dispatch::successes_of(changed@.take(i as int), ok@.take(i as int)),
            ),
        decreases n - i,
    {
        proof {
            assert(changed@.take(i + 1).drop_last() =~= changed@.take(i as int));
            assert(ok@.take(i + 1).drop_last() =~= ok@.take(i as int));
            assert(changed@.take(i + 1).last() == changed@[i as int]);
            assert(ok@.take(i + 1).last() == ok@[i as int]);
        }
        let ghost su = crate::dispatch::successes_of(changed@.take(i as int), ok@.take(i as int));
        let ghost su2 = crate::dispatch::successes_of(changed@.take(i + 1), ok@.take(i + 1));
        if ok[i] {
            keys.push(changed[i].jpeg_metrohash);
            proof {
                assert(su2 == su.push(changed@[i as int]));
                assert(keys_of(su2) =~= keys_of(su).push(changed@[i as int].jpeg_metrohash));
            }
        } else {
            proof {
                assert(su2 == su);
            }
        }
        i += 1;
    }
    proof {
        assert(changed@.take(n as int) =~= changed@);
        assert(ok@.take(n as int) =~= ok@);
    }
    keys
}

/// Law (no row without a success): when every changed window that carries a
/// fingerprint failed its embedding call, that fingerprint appears nowhere in
/// the cycle's upsert key column — the index gains a row for a fingerprint
/// only once some embedding for it succeeded.
pub proof fn lemma_failed_fingerprint_not_written(ws: Seq<Window>, ok: Seq<bool>, f: u64)
    requires
        ws.len() == ok.len(),
        forall|i: int| 0 <= i < ws.len() && (#[trigger] ws[i]).jpeg_metrohash == f ==> !ok[i],
    ensures
        !keys_of(crate::dispatch::successes_of(ws, ok)).contains(f),
{
    let su = crate::dispatch::successes_of(ws, ok);
    if keys_of(su).contains(f) {
        let j = choose|j: int| 0 <= j < keys_of(su).len() && keys_of(su)[j] == f;
        assert(su[j].jpeg_metrohash == f);
        assert(su.contains(su[j]));
        crate::dispatch::lemma_success_membership(ws, ok, su[j]);
        let i = choose|i: int| 0 <= i < ws.len() && ws[i] == su[j] && ok[i];
        assert(ws[i].jpeg_metrohash == f && ok[i]);
    }
}

/// Law (every success is written): when some position pairs a fingerprint
/// with a successful call, the cycle's upsert key column carries it — so a
/// row exists for a fingerprint exactly when some embedding for it succeeded.
pub proof fn lemma_success_fingerprint_written(ws: Seq<Window>, ok: Seq<bool>, i: int)
    requires
        ws.len() == ok.len(),
        0 <= i < ws.len(),
        ok[i],
    ensures
        keys_of(crate::dispatch::successes_of(ws, ok)).contains(ws[i].jpeg_metrohash),
{
    let su = crate::dispatch::successes_of(ws, ok);
    crate::dispatch::lemma_success_membership(ws, ok, ws[i]);
    assert(su.contains(ws[i]));
    let j = choose|j: int| 0 <= j < su.len() && su[j] == ws[i];
    assert(keys_of(su)[j] == ws[i].jpeg_metrohash);
}

/// The character for one decimal digit.
pub open spec fn digit_char(d: nat) -> char {
    if d == 0 {
        '0'
    } else if d == 1 {
        '1'
    } else if d == 2 {
        '2'
    } else if d == 3 {
        '3'
    } else if d == 4 {
        '4'
    } else if d == 5 {
        '5'
    } else if d == 6 {
        '6'
    } else if d == 7 {
        '7'
    } else if d == 8 {
        '8'
    } else {
        '9'
    }
}

/// The decimal digits of a number, most significant first, no leading zeros
/// (a single zero for zero itself).
pub open spec fn decimal_of(n: nat) -> Seq<char>
    decreases n,
{
    if n < 10 {
        seq![digit_char(n)]
    } else {
        decimal_of(n / 10).push(digit_char(n % 10))
    }
}

/// Append one decimal digit to a string.
fn push_digit(s: &mut String, d: u64)
    requires
        d < 10,
    ensures
        final(s)@ == old(s)@.push(digit_char(d as nat)),
{
    let c: &str = if d == 0 {
        "0"
    } else if d == 1 {
        "1"
    } else if d == 2 {
        "2"
    } else if d == 3 {
        "3"
    } else if d == 4 {
        "4"
    } else if d == 5 {
        "5"
    } else if d == 6 {
        "6"
    } else if d == 7 {
        "7"
    } else if d == 8 {
        "8"
    } else {
        "9"
    };
    proof {
        reveal_strlit("0");
        reveal_strlit("1");
        reveal_strlit("2");
        reveal_strlit("3");
        reveal_strlit("4");
        reveal_strlit("5");
        reveal_strlit("6");
        reveal_strlit("7");
        reveal_strlit("8");
        reveal_strlit("9");
        assert(c@ =~= seq![digit_char(d as nat)]);
    }
    s.append(c);
    proof {
        assert(old(s)@ + c@ =~= old(s)@.push(digit_char(d as nat)));
    }
}

/// The decimal form of a fingerprint (or any number), digit by digit.
pub fn u64_to_decimal(n: u64) -> (s: String)
    ensures
        s@ == decimal_of(n as nat),
    decreases n,
{
    if n < 10 {
        let mut s = String::new();
        push_digit(&mut s, n);
        proof {
            assert(Seq::<char>::empty().push(digit_char(n as nat)) =~= decimal_of(n as nat));
        }
        s
    } else {
        let mut s = u64_to_decimal(n / 10);
        push_digit(&mut s, n % 10);
        proof {
            assert((n / 10) as nat == (n as nat) / 10);
            assert((n % 10) as nat == (n as nat) % 10);
        }
        s
    }
}

/// The content-store path for a fingerprint: the textual form of the hash
/// itself, so identical content lands on one path whatever window showed it,
/// and rewriting it is byte-identical.
pub open spec fn content_path_of(fingerprint: u64) -> Seq<char> {
    "out/"@ + decimal_of(fingerprint as nat) + ".jpg"@
}

/// The content-store path for a fingerprint.
pub fn content_path(fingerprint: u64) -> (p: String)
    ensures
        p@ == content_path_of(fingerprint),
{
    let mut p = String::from_str("out/");
    let digits = u64_to_decimal(fingerprint);
    p.append(digits.as_str());
    p.append(".jpg");
    p
}

/// The content-store write for one dispatched window: the path to persist its
/// bytes under when its embedding call succeeded, nothing when it failed —
/// a failed window is skipped for this cycle, never retried for the same
/// content.
pub fn content_write_for(w: &Window, succeeded: bool) -> (r: Option<String>)
    ensures
        succeeded ==> (r matches Some(p) && p@ == content_path_of(w.jpeg_metrohash)),
        !succeeded ==> r is None,
{
    if succeeded {
        Some(content_path(w.jpeg_metrohash))
    } else {
        None
    }
}

} // verus!
