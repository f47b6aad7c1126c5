//! The list of output devices.

use crate::text::{bytes_le, bytes_le_total, bytes_le_transitive, comes_before, same_text, texts};
use vstd::prelude::*;
use vstd::string::StrSliceExecFns;
use vstd::utf8::encode_utf8;

verus! {

/// Whether the names are in the order of their bytes, and none comes twice.
pub open spec fn is_tidy(names: Seq<Seq<char>>) -> bool {
    &&& forall|i: int, j: int|
        0 <= i < j < names.len() ==> bytes_le(
            encode_utf8(#[trigger] names[i]),
            encode_utf8(#[trigger] names[j]),
        )
    &&& names.no_duplicates()
}

/// Puts a name where it belongs in a tidy list, unless it stands there already.
fn put_in(list: &mut Vec<String>, name: &str)
    requires
        is_tidy(texts(old(list)@)),
    ensures
        is_tidy(texts(final(list)@)),
        forall|t: Seq<char>| #[trigger]
            texts(final(list)@).contains(t) <==> texts(old(list)@).contains(t) || t == name@,
{
    let ghost before = texts(list@);
    let key = name.as_bytes_vec();
    let n: usize = list.len();
    for i in 0..n
        invariant
            n == list.len(),
            before == texts(list@),
            is_tidy(before),
            forall|k: int| 0 <= k < i ==> #[trigger] before[k] != name@,
    {
        assert(before[i as int] == list@[i as int]@);
        if same_text(list[i].as_str(), name) {
            assert(before.contains(name@));
            return;
        }
    }
    let mut at: usize = 0;
    while at < n && comes_before(&list[at].as_str().as_bytes_vec(), &key)
        invariant
            n == list.len(),
            at <= n,
            before == texts(list@),
            key@ == encode_utf8(name@),
            forall|k: int|
                0 <= k < at ==> bytes_le(encode_utf8(#[trigger] before[k]), encode_utf8(name@)),
        decreases n - at,
    {
        assert(before[at as int] == list@[at as int]@);
        at = at + 1;
    }
    proof {
        let spot = at as int;
        if spot < n {
            assert(before[spot] == list@[spot]@);
            bytes_le_total(encode_utf8(before[spot]), encode_utf8(name@));
        }
        putting_in_keeps_tidy(before, name@, spot);
    }
    list.insert(at, name.to_owned());
    assert(texts(list@) =~= before.insert(at as int, name@));
}

/// A name put behind those that come before it leaves a list tidy.
proof fn putting_in_keeps_tidy(names: Seq<Seq<char>>, name: Seq<char>, at: int)
    requires
        is_tidy(names),
        0 <= at <= names.len(),
        forall|k: int| 0 <= k < names.len() ==> #[trigger] names[k] != name,
        forall|k: int|
            0 <= k < at ==> bytes_le(encode_utf8(#[trigger] names[k]), encode_utf8(name)),
        at < names.len() ==> bytes_le(encode_utf8(name), encode_utf8(names[at])),
    ensures
        is_tidy(names.insert(at, name)),
        forall|t: Seq<char>| #[trigger]
            names.insert(at, name).contains(t) <==> names.contains(t) || t == name,
{
    let after = names.insert(at, name);
    assert forall|i: int, j: int| 0 <= i < j < after.len() implies bytes_le(
        encode_utf8(#[trigger] after[i]),
        encode_utf8(#[trigger] after[j]),
    ) by {
        if i == at && j > at + 1 {
            bytes_le_transitive(
                encode_utf8(name),
                encode_utf8(names[at]),
                encode_utf8(names[j - 1]),
            );
        }
    }
    assert forall|i: int, j: int| 0 <= i < after.len() && 0 <= j < after.len() && i != j implies
        after[i] != after[j] by {
        let x = if i < at {
            i
        } else {
            i - 1
        };
        let y = if j < at {
            j
        } else {
            j - 1
        };
        assert(i != at ==> after[i] == names[x]);
        assert(j != at ==> after[j] == names[y]);
    }
    assert forall|t: Seq<char>| #[trigger] after.contains(t) implies names.contains(t) || t == name by {
        let i = choose|i: int| 0 <= i < after.len() && after[i] == t;
        if i < at {
            assert(names[i] == t);
        } else if i > at {
            assert(names[i - 1] == t);
        }
    }
    assert forall|t: Seq<char>| names.contains(t) || t == name implies #[trigger] after.contains(t) by {
        if t == name {
            assert(after[at] == t);
        } else {
            let i = choose|i: int| 0 <= i < names.len() && names[i] == t;
            if i < at {
                assert(after[i] == t);
            } else {
                assert(after[i + 1] == t);
            }
        }
    }
}

/// The names of the output devices as the settings list them: sorted, and each
/// once. Every device is matched by a part of its name, so a repeated name would
/// be one choice offered twice.
pub fn output_devices(names: &Vec<String>) -> (r: Vec<String>)
    ensures
        is_tidy(texts(r@)),
        forall|t: Seq<char>| #[trigger] texts(r@).contains(t) <==> texts(names@).contains(t),
{
    let mut out: Vec<String> = Vec::new();
    let ghost all = texts(names@);
    let n: usize = names.len();
    assert(texts(out@) =~= Seq::empty());
    for i in 0..n
        invariant
            n == names.len(),
            all == texts(names@),
            is_tidy(texts(out@)),
            forall|t: Seq<char>| #[trigger] texts(out@).contains(t) <==> all.take(i as int).contains(t),
    {
        let ghost before = texts(out@);
        put_in(&mut out, names[i].as_str());
        proof {
            let name = all[i as int];
            assert(name == names@[i as int]@);
            assert(all.take(i + 1) =~= all.take(i as int).push(name));
            assert forall|t: Seq<char>| #[trigger] texts(out@).contains(t) <==> all.take(
                i + 1,
            ).contains(t) by {
                vstd::seq_lib::lemma_seq_contains_after_push(all.take(i as int), name, t);
            }
        }
    }
    assert(all.take(n as int) =~= all);
    out
}

/// A list that is tidy comes in dictionary order and names nothing twice.
pub proof fn a_tidy_list_is_sorted_and_names_each_once(names: Seq<Seq<char>>)
    ensures
        is_tidy(names) <==> forall|i: int, j: int|
            0 <= i < j < names.len() ==> bytes_le(
                encode_utf8(#[trigger] names[i]),
                encode_utf8(#[trigger] names[j]),
            ) && names[i] != names[j],
{
}

} // verus!
