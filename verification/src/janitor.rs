//! Maintenance of long-term memory: detection of near-duplicate node names,
//! the graph queries that merge them, compaction of old memory chunks into
//! monthly episodes, and the orphan audit between the vector store and the graph.
use vstd::prelude::*;

use crate::ai_processor::{chat_request, ChatRequest};
use crate::clock::unix_now;
use crate::config::Config;
use crate::text::join_url_spec;
use crate::cypher::{int_param_is, text_param_is, CypherQuery};
use crate::models::{CompiledMemory, QdrantPayload};
use crate::text::{chars_of, contains_seq, decimal, push_decimal, str_eq, string_views};

verus! {

pub open spec fn min2(x: nat, y: nat) -> nat {
    if x <= y { x } else { y }
}

/// Levenshtein (edit) distance between two character sequences: the least
/// number of single-character insertions, deletions and substitutions that
/// turn `a` into `b`.
pub open spec fn edit_distance(a: Seq<char>, b: Seq<char>) -> nat
    decreases a.len() + b.len(),
{
    if a.len() == 0 {
        b.len()
    } else if b.len() == 0 {
        a.len()
    } else {
        let cost: nat = if a.last() == b.last() { 0 } else { 1 };
        min2(
            min2(
                edit_distance(a.drop_last(), b) + 1,
                edit_distance(a, b.drop_last()) + 1,
            ),
            edit_distance(a.drop_last(), b.drop_last()) + cost,
        )
    }
}

/// The edit distance never exceeds the length of the longer sequence.
pub proof fn lemma_edit_distance_bound(a: Seq<char>, b: Seq<char>)
    ensures
        edit_distance(a, b) <= if a.len() >= b.len() { a.len() } else { b.len() },
    decreases a.len() + b.len(),
{
    if a.len() > 0 && b.len() > 0 {
        lemma_edit_distance_bound(a.drop_last(), b.drop_last());
    }
}


/// A name is at distance zero from itself.
pub proof fn law_edit_distance_identity(a: Seq<char>)
    ensures
        edit_distance(a, a) == 0,
    decreases a.len(),
{
    if a.len() > 0 {
        law_edit_distance_identity(a.drop_last());
    }
}

/// Distance from or to the empty name is the other name's length.
pub proof fn law_edit_distance_empty(a: Seq<char>)
    ensures
        edit_distance(a, Seq::empty()) == a.len(),
        edit_distance(Seq::empty(), a) == a.len(),
{
}

/// The distance does not depend on the order of the two names.
pub proof fn law_edit_distance_symmetric(a: Seq<char>, b: Seq<char>)
    ensures
        edit_distance(a, b) == edit_distance(b, a),
    decreases a.len() + b.len(),
{
    if a.len() > 0 && b.len() > 0 {
        law_edit_distance_symmetric(a.drop_last(), b);
        law_edit_distance_symmetric(a, b.drop_last());
        law_edit_distance_symmetric(a.drop_last(), b.drop_last());
    }
}

/// The distance is at least the difference of the lengths.
pub proof fn law_edit_distance_at_least_length_difference(a: Seq<char>, b: Seq<char>)
    ensures
        edit_distance(a, b) >= a.len() - b.len(),
        edit_distance(a, b) >= b.len() - a.len(),
    decreases a.len() + b.len(),
{
    if a.len() > 0 && b.len() > 0 {
        law_edit_distance_at_least_length_difference(a.drop_last(), b);
        law_edit_distance_at_least_length_difference(a, b.drop_last());
        law_edit_distance_at_least_length_difference(a.drop_last(), b.drop_last());
    }
}

/// The distance is zero exactly for equal names.
pub proof fn law_edit_distance_zero_iff_equal(a: Seq<char>, b: Seq<char>)
    ensures
        edit_distance(a, b) == 0 <==> a == b,
    decreases a.len() + b.len(),
{
    if a == b {
        law_edit_distance_identity(a);
    } else if a.len() > 0 && b.len() > 0 {
        law_edit_distance_zero_iff_equal(a.drop_last(), b.drop_last());
        if edit_distance(a, b) == 0 {
            assert(a.last() == b.last());
            assert(a.drop_last() == b.drop_last());
            assert(a =~= a.drop_last().push(a.last()));
            assert(b =~= b.drop_last().push(b.last()));
        }
    } else if a.len() == 0 && b.len() == 0 {
        assert(a =~= b);
    }
}

/// One step of an edit script, read from the ends of the two names backwards:
/// keep the last character of `a`, replace it by the last character of `b`,
/// delete it, or insert the last character of `b`.
pub enum EditOp {
    Keep,
    Substitute,
    Delete,
    Insert,
}

/// `ops` turns `a` into `b`: its last step accounts for the last character of
/// `a` (kept, replaced or deleted) or of `b` (inserted), and the steps before
/// it turn what is left of `a` into what is left of `b`.
pub open spec fn transforms(ops: Seq<EditOp>, a: Seq<char>, b: Seq<char>) -> bool
    decreases ops.len(),
{
    if ops.len() == 0 {
        a.len() == 0 && b.len() == 0
    } else {
        let rest = ops.drop_last();
        match ops.last() {
            EditOp::Keep => a.len() > 0 && b.len() > 0 && a.last() == b.last()
                && transforms(rest, a.drop_last(), b.drop_last()),
            EditOp::Substitute => a.len() > 0 && b.len() > 0 && transforms(rest, a.drop_last(), b.drop_last()),
            EditOp::Delete => a.len() > 0 && transforms(rest, a.drop_last(), b),
            EditOp::Insert => b.len() > 0 && transforms(rest, a, b.drop_last()),
        }
    }
}

/// The number of edits of a script: its steps other than `Keep`.
pub open spec fn edit_count(ops: Seq<EditOp>) -> nat
    decreases ops.len(),
{
    if ops.len() == 0 {
        0
    } else {
        edit_count(ops.drop_last()) + if ops.last() is Keep { 0nat } else { 1nat }
    }
}

proof fn lemma_script_at_least_distance(ops: Seq<EditOp>, a: Seq<char>, b: Seq<char>)
    requires
        transforms(ops, a, b),
    ensures
        edit_count(ops) >= edit_distance(a, b),
    decreases ops.len(),
{
    if ops.len() > 0 {
        let rest = ops.drop_last();
        match ops.last() {
            EditOp::Keep => {
                lemma_script_at_least_distance(rest, a.drop_last(), b.drop_last());
            },
            EditOp::Substitute => {
                lemma_script_at_least_distance(rest, a.drop_last(), b.drop_last());
            },
            EditOp::Delete => {
                lemma_script_at_least_distance(rest, a.drop_last(), b);
            },
            EditOp::Insert => {
                lemma_script_at_least_distance(rest, a, b.drop_last());
            },
        }
    }
}

proof fn lemma_insert_step(rest: Seq<EditOp>, a: Seq<char>, b: Seq<char>)
    requires
        b.len() > 0,
        transforms(rest, a, b.drop_last()),
    ensures
        transforms(rest.push(EditOp::Insert), a, b),
        edit_count(rest.push(EditOp::Insert)) == edit_count(rest) + 1,
{
    let ops = rest.push(EditOp::Insert);
    assert(ops.drop_last() =~= rest);
}

proof fn lemma_delete_step(rest: Seq<EditOp>, a: Seq<char>, b: Seq<char>)
    requires
        a.len() > 0,
        transforms(rest, a.drop_last(), b),
    ensures
        transforms(rest.push(EditOp::Delete), a, b),
        edit_count(rest.push(EditOp::Delete)) == edit_count(rest) + 1,
{
    let ops = rest.push(EditOp::Delete);
    assert(ops.drop_last() =~= rest);
}

/// The step that accounts for the last characters of both names: kept when
/// they are equal, replaced otherwise.
pub open spec fn diagonal_op(a: Seq<char>, b: Seq<char>) -> EditOp {
    if a.last() == b.last() { EditOp::Keep } else { EditOp::Substitute }
}

proof fn lemma_diagonal_step(rest: Seq<EditOp>, a: Seq<char>, b: Seq<char>)
    requires
        a.len() > 0,
        b.len() > 0,
        transforms(rest, a.drop_last(), b.drop_last()),
    ensures
        transforms(rest.push(diagonal_op(a, b)), a, b),
        edit_count(rest.push(diagonal_op(a, b))) == edit_count(rest) + if a.last() == b.last() { 0nat } else { 1nat },
{
    let ops = rest.push(diagonal_op(a, b));
    assert(ops.drop_last() =~= rest);
}

proof fn lemma_optimal_script(a: Seq<char>, b: Seq<char>) -> (ops: Seq<EditOp>)
    ensures
        transforms(ops, a, b),
        edit_count(ops) == edit_distance(a, b),
    decreases a.len() + b.len(),
{
    if a.len() == 0 && b.len() == 0 {
        Seq::empty()
    } else if a.len() == 0 {
        let rest = lemma_optimal_script(a, b.drop_last());
        lemma_insert_step(rest, a, b);
        rest.push(EditOp::Insert)
    } else if b.len() == 0 {
        let rest = lemma_optimal_script(a.drop_last(), b);
        lemma_delete_step(rest, a, b);
        rest.push(EditOp::Delete)
    } else {
        let del = edit_distance(a.drop_last(), b) + 1;
        let ins = edit_distance(a, b.drop_last()) + 1;
        let cost: nat = if a.last() == b.last() { 0 } else { 1 };
        let sub = edit_distance(a.drop_last(), b.drop_last()) + cost;
        if sub <= del && sub <= ins {
            let rest = lemma_optimal_script(a.drop_last(), b.drop_last());
            lemma_diagonal_step(rest, a, b);
            rest.push(diagonal_op(a, b))
        } else if del <= ins {
            let rest = lemma_optimal_script(a.drop_last(), b);
            lemma_delete_step(rest, a, b);
            rest.push(EditOp::Delete)
        } else {
            let rest = lemma_optimal_script(a, b.drop_last());
            lemma_insert_step(rest, a, b);
            rest.push(EditOp::Insert)
        }
    }
}

/// The edit distance is the least number of single-character edits that turn
/// `a` into `b`: some edit script makes exactly that many, and no script
/// (such as `ops`) makes fewer.
pub proof fn law_edit_distance_is_least_edits(a: Seq<char>, b: Seq<char>, ops: Seq<EditOp>)
    ensures
        exists|s: Seq<EditOp>| transforms(s, a, b) && edit_count(s) == edit_distance(a, b),
        transforms(ops, a, b) ==> edit_count(ops) >= edit_distance(a, b),
{
    let s = lemma_optimal_script(a, b);
    assert(transforms(s, a, b) && edit_count(s) == edit_distance(a, b));
    if transforms(ops, a, b) {
        lemma_script_at_least_distance(ops, a, b);
    }
}

/// Similarity does not depend on the order of the two names, and a name is
/// similar to itself at any threshold up to 1.
pub proof fn law_similarity_symmetric_and_reflexive(a: Seq<char>, b: Seq<char>, num: nat, den: nat)
    ensures
        is_similar(a, b, num, den) == is_similar(b, a, num, den),
        num <= den ==> is_similar(a, a, num, den),
{
    law_edit_distance_symmetric(a, b);
    law_edit_distance_identity(a);
    assert(max_char_len(a, b) == max_char_len(b, a));
    let m = max_char_len(a, a);
    if num <= den && m > 0 {
        assert(den * (m - 0) >= num * m) by (nonlinear_arith)
            requires num <= den, m > 0;
    }
}

/// Levenshtein distance between `a` and `b`, counted in characters.
pub fn levenshtein_distance(a: &str, b: &str) -> (d: usize)
    requires
        a@.len() < usize::MAX,
        b@.len() < usize::MAX,
    ensures
        d == edit_distance(a@, b@),
{
    let ac = chars_of(a);
    let bc = chars_of(b);
    let a_len = ac.len();
    let b_len = bc.len();
    let ghost av = ac@;
    let ghost bv = bc@;

    // Row 0 of the table: the distance from the empty prefix of `a`.
    let mut prev: Vec<usize> = Vec::new();
    let mut j: usize = 0;
    while j <= b_len
        invariant
            b_len == bv.len(),
            b_len < usize::MAX,
            j <= b_len + 1,
            prev@.len() == j,
            forall|k: int| 0 <= k < j ==> prev@[k] == edit_distance(av.take(0), bv.take(k)),
        decreases b_len + 1 - j,
    {
        assert(av.take(0).len() == 0);
        assert(bv.take(j as int).len() == j);
        prev.push(j);
        j = j + 1;
    }

    let mut r: usize = 0;
    while r < a_len
        invariant
            a_len == av.len(),
            b_len == bv.len(),
            av == ac@,
            bv == bc@,
            a_len < usize::MAX,
            b_len < usize::MAX,
            r <= a_len,
            prev@.len() == b_len + 1,
            forall|k: int| 0 <= k <= b_len ==> prev@[k] == edit_distance(av.take(r as int), bv.take(k)),
        decreases a_len - r,
    {
        let mut cur: Vec<usize> = Vec::new();
        proof {
            assert(bv.take(0).len() == 0);
            assert(av.take(r + 1).len() == r + 1);
        }
        cur.push(r + 1);
        let mut j: usize = 1;
        while j <= b_len
            invariant
                a_len == av.len(),
                b_len == bv.len(),
                av == ac@,
                bv == bc@,
                a_len < usize::MAX,
                b_len < usize::MAX,
                r < a_len,
                1 <= j <= b_len + 1,
                prev@.len() == b_len + 1,
                forall|k: int| 0 <= k <= b_len ==> prev@[k] == edit_distance(av.take(r as int), bv.take(k)),
                cur@.len() == j,
                forall|k: int| 0 <= k < j ==> cur@[k] == edit_distance(av.take(r + 1), bv.take(k)),
            decreases b_len + 1 - j,
        {
            let ghost x = av.take(r + 1);
            let ghost y = bv.take(j as int);
            proof {
                assert(x.drop_last() =~= av.take(r as int));
                assert(y.drop_last() =~= bv.take(j - 1));
                assert(x.last() == av[r as int]);
                assert(y.last() == bv[j - 1]);
                lemma_edit_distance_bound(av.take(r as int), y);
                lemma_edit_distance_bound(x, bv.take(j - 1));
                lemma_edit_distance_bound(av.take(r as int), bv.take(j - 1));
            }
            let cost: usize = if ac[r] == bc[j - 1] { 0 } else { 1 };
            let del = prev[j] + 1;
            let ins = cur[j - 1] + 1;
            let sub = prev[j - 1] + cost;
            let m1 = if del <= ins { del } else { ins };
            let m = if m1 <= sub { m1 } else { sub };
            cur.push(m);
            j = j + 1;
        }
        prev = cur;
        r = r + 1;
    }
    proof {
        assert(av.take(a_len as int) =~= av);
        assert(bv.take(b_len as int) =~= bv);
    }
    prev[b_len]
}


/// The larger of the two lengths, in characters.
pub open spec fn max_char_len(a: Seq<char>, b: Seq<char>) -> nat {
    if a.len() >= b.len() { a.len() } else { b.len() }
}

/// Normalized Levenshtein similarity `1 - distance / max_len` is at least
/// the threshold `num / den`, where `max_len` is the length in characters of
/// the longer name. Two empty names have similarity 1.
pub open spec fn is_similar(a: Seq<char>, b: Seq<char>, num: nat, den: nat) -> bool {
    let m = max_char_len(a, b);
    if m == 0 {
        num <= den
    } else {
        den * (m - edit_distance(a, b)) >= num * m
    }
}

/// Length of the UTF-8 encoding of a name, in bytes.
pub open spec fn byte_len(s: Seq<char>) -> nat {
    vstd::utf8::encode_utf8(s).len()
}

/// The length of the UTF-8 encoding of `s`, in bytes.
fn byte_length(s: &str) -> (n: usize)
    ensures
        n == byte_len(s@),
{
    s.as_bytes().len()
}

/// The ordered pair (kept, removed) for two similar names: the name with the
/// longer UTF-8 encoding is kept, the first one on a tie.
pub open spec fn keep_remove(a: Seq<char>, b: Seq<char>) -> (Seq<char>, Seq<char>) {
    if byte_len(a) >= byte_len(b) { (a, b) } else { (b, a) }
}

/// Pairs (names[i], names[j]) for `i < j < j_end` that are similar, in order of `j`.
pub open spec fn row_pairs(names: Seq<Seq<char>>, i: int, j_end: int, num: nat, den: nat) -> Seq<(Seq<char>, Seq<char>)>
    decreases j_end - i,
{
    if j_end <= i + 1 {
        Seq::empty()
    } else {
        let prev = row_pairs(names, i, j_end - 1, num, den);
        if is_similar(names[i], names[j_end - 1], num, den) {
            prev.push(keep_remove(names[i], names[j_end - 1]))
        } else {
            prev
        }
    }
}

/// All similar pairs whose first index is below `i_end`, in lexicographic order of indices.
pub open spec fn pairs_upto(names: Seq<Seq<char>>, i_end: int, num: nat, den: nat) -> Seq<(Seq<char>, Seq<char>)>
    decreases i_end,
{
    if i_end <= 0 {
        Seq::empty()
    } else {
        pairs_upto(names, i_end - 1, num, den) + row_pairs(names, i_end - 1, names.len() as int, num, den)
    }
}

/// All similar pairs of `names`, for `i < j` in lexicographic order of `(i, j)`.
pub open spec fn similar_pairs(names: Seq<Seq<char>>, num: nat, den: nat) -> Seq<(Seq<char>, Seq<char>)> {
    pairs_upto(names, names.len() as int, num, den)
}

/// The pair is similar, its first name's UTF-8 encoding is at least as long
/// as the second's, and both are among `names`.
pub open spec fn sound_pair(names: Seq<Seq<char>>, p: (Seq<char>, Seq<char>), num: nat, den: nat) -> bool {
    &&& is_similar(p.0, p.1, num, den)
    &&& byte_len(p.0) >= byte_len(p.1)
    &&& names.contains(p.0)
    &&& names.contains(p.1)
}

proof fn lemma_row_pairs_sound(names: Seq<Seq<char>>, i: int, j_end: int, num: nat, den: nat)
    requires
        0 <= i < names.len(),
        j_end <= names.len(),
    ensures
        forall|k: int| 0 <= k < row_pairs(names, i, j_end, num, den).len()
            ==> sound_pair(names, #[trigger] row_pairs(names, i, j_end, num, den)[k], num, den),
    decreases j_end - i,
{
    if j_end > i + 1 {
        lemma_row_pairs_sound(names, i, j_end - 1, num, den);
        let prev = row_pairs(names, i, j_end - 1, num, den);
        let cur = row_pairs(names, i, j_end, num, den);
        let a = names[i];
        let b = names[j_end - 1];
        assert(names.contains(a));
        assert(names.contains(b));
        law_similarity_symmetric_and_reflexive(a, b, num, den);
        assert forall|k: int| 0 <= k < cur.len() implies sound_pair(names, #[trigger] cur[k], num, den) by {
            if k < prev.len() {
                assert(cur[k] == prev[k]);
            }
        }
    }
}

proof fn lemma_pairs_upto_sound(names: Seq<Seq<char>>, i_end: int, num: nat, den: nat)
    requires
        i_end <= names.len(),
    ensures
        forall|k: int| 0 <= k < pairs_upto(names, i_end, num, den).len()
            ==> sound_pair(names, #[trigger] pairs_upto(names, i_end, num, den)[k], num, den),
    decreases i_end,
{
    if i_end > 0 {
        lemma_pairs_upto_sound(names, i_end - 1, num, den);
        lemma_row_pairs_sound(names, i_end - 1, names.len() as int, num, den);
        let prev = pairs_upto(names, i_end - 1, num, den);
        let row = row_pairs(names, i_end - 1, names.len() as int, num, den);
        let cur = pairs_upto(names, i_end, num, den);
        assert forall|k: int| 0 <= k < cur.len() implies sound_pair(names, #[trigger] cur[k], num, den) by {
            if k < prev.len() {
                assert(cur[k] == prev[k]);
            } else {
                assert(cur[k] == row[k - prev.len()]);
            }
        }
    }
}

/// Every pair found is similar at the threshold, keeps the name with the
/// longer encoding (the more canonical one), and consists of two listed names.
pub proof fn law_similar_pairs_keep_longer_name(names: Seq<Seq<char>>, num: nat, den: nat)
    ensures
        forall|k: int| 0 <= k < similar_pairs(names, num, den).len()
            ==> sound_pair(names, #[trigger] similar_pairs(names, num, den)[k], num, den),
{
    lemma_pairs_upto_sound(names, names.len() as int, num, den);
}

proof fn lemma_row_pairs_complete(names: Seq<Seq<char>>, i: int, j_end: int, num: nat, den: nat)
    requires
        0 <= i < names.len(),
        j_end <= names.len(),
    ensures
        forall|j: int| i < j < j_end && is_similar(names[i], #[trigger] names[j], num, den)
            ==> row_pairs(names, i, j_end, num, den).contains(keep_remove(names[i], names[j])),
    decreases j_end - i,
{
    if j_end > i + 1 {
        lemma_row_pairs_complete(names, i, j_end - 1, num, den);
        let prev = row_pairs(names, i, j_end - 1, num, den);
        let cur = row_pairs(names, i, j_end, num, den);
        assert forall|j: int| i < j < j_end && is_similar(names[i], #[trigger] names[j], num, den)
            implies cur.contains(keep_remove(names[i], names[j])) by {
            if j < j_end - 1 {
                let k = choose|k: int| 0 <= k < prev.len() && prev[k] == keep_remove(names[i], names[j]);
                assert(cur[k] == prev[k]);
            } else {
                assert(cur[cur.len() - 1] == keep_remove(names[i], names[j]));
            }
        }
    }
}

proof fn lemma_pairs_upto_complete(names: Seq<Seq<char>>, i_end: int, num: nat, den: nat)
    requires
        i_end <= names.len(),
    ensures
        forall|i: int, j: int| 0 <= i < i_end && i < j < names.len()
            && is_similar(#[trigger] names[i], #[trigger] names[j], num, den)
            ==> pairs_upto(names, i_end, num, den).contains(keep_remove(names[i], names[j])),
    decreases i_end,
{
    if i_end > 0 {
        lemma_pairs_upto_complete(names, i_end - 1, num, den);
        lemma_row_pairs_complete(names, i_end - 1, names.len() as int, num, den);
        let prev = pairs_upto(names, i_end - 1, num, den);
        let row = row_pairs(names, i_end - 1, names.len() as int, num, den);
        let cur = pairs_upto(names, i_end, num, den);
        assert(cur == prev + row);
        assert forall|i: int, j: int| 0 <= i < i_end && i < j < names.len()
            && is_similar(#[trigger] names[i], #[trigger] names[j], num, den)
            implies cur.contains(keep_remove(names[i], names[j])) by {
            if i < i_end - 1 {
                let k = choose|k: int| 0 <= k < prev.len() && prev[k] == keep_remove(names[i], names[j]);
                assert(cur[k] == prev[k]);
            } else {
                let k = choose|k: int| 0 <= k < row.len() && row[k] == keep_remove(names[i], names[j]);
                assert(cur[prev.len() + k] == row[k]);
            }
        }
    }
}

/// Every two listed names (first before second) whose similarity reaches the
/// threshold are found, as (longer name, shorter name).
pub proof fn law_similar_pairs_are_all_found(names: Seq<Seq<char>>, num: nat, den: nat)
    ensures
        forall|i: int, j: int| 0 <= i < j < names.len()
            && is_similar(#[trigger] names[i], #[trigger] names[j], num, den)
            ==> similar_pairs(names, num, den).contains(keep_remove(names[i], names[j])),
{
    lemma_pairs_upto_complete(names, names.len() as int, num, den);
}

pub open spec fn pair_views(pairs: Seq<(String, String)>) -> Seq<(Seq<char>, Seq<char>)> {
    pairs.map_values(|p: (String, String)| (p.0@, p.1@))
}

/// Decides whether the similarity of `a` and `b` reaches `num / den`.
pub fn similarity_at_least(a: &str, b: &str, num: u32, den: u32) -> (r: bool)
    requires
        a@.len() < usize::MAX,
        b@.len() < usize::MAX,
    ensures
        r == is_similar(a@, b@, num as nat, den as nat),
{
    let dist = levenshtein_distance(a, b);
    let la = a.unicode_len();
    let lb = b.unicode_len();
    let m: usize = if la >= lb { la } else { lb };
    if m == 0 {
        num <= den
    } else {
        proof {
            assert((den as int) * (m as int) < 0x1_0000_0000_0000_0000_0000_0000) by (nonlinear_arith)
                requires den < 0x1_0000_0000, m < 0x1_0000_0000_0000_0000;
            assert((num as int) * (m as int) < 0x1_0000_0000_0000_0000_0000_0000) by (nonlinear_arith)
                requires num < 0x1_0000_0000, m < 0x1_0000_0000_0000_0000;
            assert((den as int) * (dist as int) < 0x1_0000_0000_0000_0000_0000_0000) by (nonlinear_arith)
                requires den < 0x1_0000_0000, dist < 0x1_0000_0000_0000_0000;
        }
        let lhs: u128 = (den as u128) * (m as u128);
        let rhs: u128 = (num as u128) * (m as u128) + (den as u128) * (dist as u128);
        proof {
            assert((den as int) * (m - dist) == (den as int) * (m as int) - (den as int) * (dist as int))
                by (nonlinear_arith);
        }
        lhs >= rhs
    }
}

/// Finds every pair of names whose Levenshtein similarity is at least
/// `num / den`; each pair is (kept name, name to merge into it).
pub fn find_similar_pairs(names: &[String], num: u32, den: u32) -> (pairs: Vec<(String, String)>)
    requires
        forall|k: int| 0 <= k < names@.len() ==> (#[trigger] names@[k])@.len() < usize::MAX,
    ensures
        pair_views(pairs@) == similar_pairs(string_views(names@), num as nat, den as nat),
{
    let ghost nv = string_views(names@);
    let mut pairs: Vec<(String, String)> = Vec::new();
    let n = names.len();
    let mut i: usize = 0;
    while i < n
        invariant
            n == names@.len(),
            nv == string_views(names@),
            nv.len() == n,
            forall|k: int| 0 <= k < names@.len() ==> (#[trigger] names@[k])@.len() < usize::MAX,
            i <= n,
            pair_views(pairs@) == pairs_upto(nv, i as int, num as nat, den as nat),
        decreases n - i,
    {
        let ghost before = pair_views(pairs@);
        let mut j: usize = i + 1;
        while j < n
            invariant
                n == names@.len(),
                nv == string_views(names@),
                nv.len() == n,
                forall|k: int| 0 <= k < names@.len() ==> (#[trigger] names@[k])@.len() < usize::MAX,
                i < n,
                i + 1 <= j <= n,
                pair_views(pairs@) == before + row_pairs(nv, i as int, j as int, num as nat, den as nat),
            decreases n - j,
        {
            let a = &names[i];
            let b = &names[j];
            assert(nv[i as int] == a@);
            assert(nv[j as int] == b@);
            let ghost old_pairs = pairs@;
            let sa = a.as_str();
            let sb = b.as_str();
            if similarity_at_least(sa, sb, num, den) {
                if byte_length(sa) >= byte_length(sb) {
                    pairs.push((a.clone(), b.clone()));
                } else {
                    pairs.push((b.clone(), a.clone()));
                }
                assert(pair_views(pairs@) =~= pair_views(old_pairs).push(keep_remove(nv[i as int], nv[j as int])));
            }
            j = j + 1;
        }
        assert(pairs_upto(nv, i + 1, num as nat, den as nat)
            == pairs_upto(nv, i as int, num as nat, den as nat) + row_pairs(nv, i as int, n as int, num as nat, den as nat));
        i = i + 1;
    }
    pairs
}


/// A merge plan is safe: no pair merges a name into itself, no name is
/// removed twice, and no pair keeps a name that an earlier pair removed (so
/// every merge moves relationships onto a node that still exists).
pub open spec fn merge_plan_safe(plan: Seq<(Seq<char>, Seq<char>)>) -> bool {
    &&& forall|i: int| 0 <= i < plan.len() ==> (#[trigger] plan[i]).0 != plan[i].1
    &&& forall|i: int, j: int| 0 <= j < i < plan.len() ==> {
        &&& (#[trigger] plan[i]).0 != (#[trigger] plan[j]).1
        &&& plan[i].1 != plan[j].1
    }
}

/// Index of the first occurrence of `x` among the first `k` names.
pub open spec fn first_index(s: Seq<Seq<char>>, x: Seq<char>, k: int) -> Option<int>
    decreases k,
{
    if k <= 0 {
        None
    } else {
        match first_index(s, x, k - 1) {
            Some(i) => Some(i),
            None => if s[k - 1] == x { Some(k - 1) } else { None },
        }
    }
}

/// The name that `k` stands for once each name of `removed` has been merged
/// into the name at the same index of `into`.
pub open spec fn survivor_spec(removed: Seq<Seq<char>>, into: Seq<Seq<char>>, k: Seq<char>) -> Seq<char> {
    match first_index(removed, k, removed.len() as int) {
        Some(i) => into[i],
        None => k,
    }
}

/// `into` after `r` has been merged into `keep`: every name merged into `r`
/// now counts as merged into `keep`.
pub open spec fn redirect(into: Seq<Seq<char>>, r: Seq<char>, keep: Seq<char>) -> Seq<Seq<char>> {
    Seq::new(into.len(), |c: int| if into[c] == r { keep } else { into[c] })
}

/// The names removed so far, what each was merged into, and the merges
/// planned, after the first `n` similar pairs. A pair keeps the survivor of
/// its kept name; it is dropped when its name to remove is already removed
/// or is that survivor.
pub open spec fn merge_state(pairs: Seq<(Seq<char>, Seq<char>)>, n: int) -> (Seq<Seq<char>>, Seq<Seq<char>>, Seq<(Seq<char>, Seq<char>)>)
    decreases n,
{
    if n <= 0 {
        (Seq::empty(), Seq::empty(), Seq::empty())
    } else {
        let st = merge_state(pairs, n - 1);
        let keep = survivor_spec(st.0, st.1, pairs[n - 1].0);
        let r = pairs[n - 1].1;
        if st.0.contains(r) || keep == r {
            st
        } else {
            (st.0.push(r), redirect(st.1, r, keep).push(keep), st.2.push((keep, r)))
        }
    }
}

/// The merges planned for these similar pairs, in order.
pub open spec fn merge_plan_spec(pairs: Seq<(Seq<char>, Seq<char>)>) -> Seq<(Seq<char>, Seq<char>)> {
    merge_state(pairs, pairs.len() as int).2
}

proof fn lemma_merge_state_from_pairs(pairs: Seq<(Seq<char>, Seq<char>)>, n: int)
    requires
        0 <= n <= pairs.len(),
    ensures
        merge_state(pairs, n).0.len() == merge_state(pairs, n).1.len(),
        forall|a: int| 0 <= a < merge_state(pairs, n).1.len() ==> exists|j: int|
            0 <= j < n && (#[trigger] pairs[j]).0 == #[trigger] merge_state(pairs, n).1[a],
        forall|i: int| 0 <= i < merge_state(pairs, n).2.len() ==> {
            &&& exists|j: int| 0 <= j < n && (#[trigger] pairs[j]).1 == (#[trigger] merge_state(pairs, n).2[i]).1
            &&& exists|j: int| 0 <= j < n && (#[trigger] pairs[j]).0 == merge_state(pairs, n).2[i].0
        },
    decreases n,
{
    if n > 0 {
        lemma_merge_state_from_pairs(pairs, n - 1);
        let st = merge_state(pairs, n - 1);
        let cur = merge_state(pairs, n);
        let keep = survivor_spec(st.0, st.1, pairs[n - 1].0);
        let gone = pairs[n - 1].1;
        lemma_first_index(st.0, pairs[n - 1].0, st.0.len() as int);
        assert(exists|j: int| 0 <= j < n && (#[trigger] pairs[j]).0 == keep) by {
            match first_index(st.0, pairs[n - 1].0, st.0.len() as int) {
                Some(i) => {
                    let j = choose|j: int| 0 <= j < n - 1 && (#[trigger] pairs[j]).0 == st.1[i];
                    assert(pairs[j].0 == keep);
                },
                None => {
                    assert(pairs[n - 1].0 == keep);
                },
            }
        }
        if !(st.0.contains(gone) || keep == gone) {
            assert forall|a: int| 0 <= a < cur.1.len() implies exists|j: int|
                0 <= j < n && (#[trigger] pairs[j]).0 == #[trigger] cur.1[a] by {
                if a < st.1.len() {
                    if st.1[a] == gone {
                        assert(cur.1[a] == keep);
                    } else {
                        assert(cur.1[a] == st.1[a]);
                        let j = choose|j: int| 0 <= j < n - 1 && (#[trigger] pairs[j]).0 == st.1[a];
                        assert(pairs[j].0 == cur.1[a]);
                    }
                } else {
                    assert(cur.1[a] == keep);
                }
            }
            assert forall|i: int| 0 <= i < cur.2.len() implies {
                &&& exists|j: int| 0 <= j < n && (#[trigger] pairs[j]).1 == (#[trigger] cur.2[i]).1
                &&& exists|j: int| 0 <= j < n && (#[trigger] pairs[j]).0 == cur.2[i].0
            } by {
                if i < st.2.len() {
                    assert(cur.2[i] == st.2[i]);
                    let j1 = choose|j: int| 0 <= j < n - 1 && (#[trigger] pairs[j]).1 == st.2[i].1;
                    assert(pairs[j1].1 == cur.2[i].1);
                    let j2 = choose|j: int| 0 <= j < n - 1 && (#[trigger] pairs[j]).0 == st.2[i].0;
                    assert(pairs[j2].0 == cur.2[i].0);
                } else {
                    assert(cur.2[i] == (keep, gone));
                    assert(pairs[n - 1].1 == cur.2[i].1);
                }
            }
        } else {
            assert forall|a: int| 0 <= a < cur.1.len() implies exists|j: int|
                0 <= j < n && (#[trigger] pairs[j]).0 == #[trigger] cur.1[a] by {
                let j = choose|j: int| 0 <= j < n - 1 && (#[trigger] pairs[j]).0 == st.1[a];
                assert(pairs[j].0 == cur.1[a]);
            }
            assert forall|i: int| 0 <= i < cur.2.len() implies {
                &&& exists|j: int| 0 <= j < n && (#[trigger] pairs[j]).1 == (#[trigger] cur.2[i]).1
                &&& exists|j: int| 0 <= j < n && (#[trigger] pairs[j]).0 == cur.2[i].0
            } by {
                let j1 = choose|j: int| 0 <= j < n - 1 && (#[trigger] pairs[j]).1 == st.2[i].1;
                assert(pairs[j1].1 == cur.2[i].1);
                let j2 = choose|j: int| 0 <= j < n - 1 && (#[trigger] pairs[j]).0 == st.2[i].0;
                assert(pairs[j2].0 == cur.2[i].0);
            }
        }
    }
}

/// Every merge of the plan comes from the similar pairs: the name it removes
/// is the name to remove of some pair, and the name it keeps is the name to
/// keep of some pair. No node is removed unless it was itself found similar
/// to a kept name.
pub proof fn law_merge_plan_comes_from_pairs(pairs: Seq<(Seq<char>, Seq<char>)>)
    ensures
        forall|i: int| 0 <= i < merge_plan_spec(pairs).len() ==> {
            &&& exists|j: int| 0 <= j < pairs.len() && (#[trigger] pairs[j]).1 == (#[trigger] merge_plan_spec(pairs)[i]).1
            &&& exists|j: int| 0 <= j < pairs.len() && (#[trigger] pairs[j]).0 == merge_plan_spec(pairs)[i].0
        },
{
    lemma_merge_state_from_pairs(pairs, pairs.len() as int);
}

proof fn lemma_merge_state_shape(pairs: Seq<(Seq<char>, Seq<char>)>, n: int)
    requires
        0 <= n <= pairs.len(),
    ensures
        merge_state(pairs, n).0.len() == merge_state(pairs, n).2.len(),
        forall|a: int| 0 <= a < merge_state(pairs, n).0.len()
            ==> (#[trigger] merge_state(pairs, n).0[a]) == merge_state(pairs, n).2[a].1,
    decreases n,
{
    if n > 0 {
        lemma_merge_state_shape(pairs, n - 1);
    }
}

proof fn lemma_merge_plan_grows(pairs: Seq<(Seq<char>, Seq<char>)>, n: int, m: int)
    requires
        0 <= n <= m <= pairs.len(),
    ensures
        merge_state(pairs, n).2.len() <= merge_state(pairs, m).2.len(),
        forall|i: int| 0 <= i < merge_state(pairs, n).2.len()
            ==> (#[trigger] merge_state(pairs, m).2[i]) == merge_state(pairs, n).2[i],
    decreases m - n,
{
    if n < m {
        lemma_merge_plan_grows(pairs, n, m - 1);
    }
}

/// Each similar pair is carried out or already settled: the plan removes the
/// pair's name to remove, unless that name is what the pair's kept name
/// stands for after the merges planned for the pairs before it.
pub proof fn law_merge_plan_handles_each_pair(pairs: Seq<(Seq<char>, Seq<char>)>, j: int)
    requires
        0 <= j < pairs.len(),
    ensures
        (exists|i: int| 0 <= i < merge_plan_spec(pairs).len() && (#[trigger] merge_plan_spec(pairs)[i]).1 == pairs[j].1)
            || survivor_spec(merge_state(pairs, j).0, merge_state(pairs, j).1, pairs[j].0) == pairs[j].1,
{
    let st = merge_state(pairs, j);
    let nxt = merge_state(pairs, j + 1);
    let keep = survivor_spec(st.0, st.1, pairs[j].0);
    let gone = pairs[j].1;
    lemma_merge_state_shape(pairs, j);
    lemma_merge_plan_grows(pairs, j + 1, pairs.len() as int);
    let plan = merge_plan_spec(pairs);
    if keep != gone {
        if st.0.contains(gone) {
            let a = choose|a: int| 0 <= a < st.0.len() && st.0[a] == gone;
            lemma_merge_plan_grows(pairs, j, j + 1);
            assert(st.2[a].1 == gone);
            assert(nxt.2[a] == st.2[a]);
            assert(plan[a] == nxt.2[a]);
        } else {
            assert(nxt.2 == st.2.push((keep, gone)));
            let a = st.2.len() as int;
            assert(nxt.2[a].1 == gone);
            assert(plan[a] == nxt.2[a]);
        }
    }
}

proof fn lemma_first_index(s: Seq<Seq<char>>, x: Seq<char>, k: int)
    requires
        0 <= k <= s.len(),
    ensures
        first_index(s, x, k) matches Some(i) ==> 0 <= i < k && s[i] == x,
        first_index(s, x, k) is None ==> forall|i: int| 0 <= i < k ==> s[i] != x,
    decreases k,
{
    if k > 0 {
        lemma_first_index(s, x, k - 1);
    }
}

/// The name `k` stands for once the merges recorded in `removed` (each merged
/// into the name at the same index of `into`) have run.
fn survivor(removed: &Vec<String>, into: &Vec<String>, k: &str) -> (s: String)
    requires
        removed@.len() == into@.len(),
    ensures
        s@ == survivor_spec(string_views(removed@), string_views(into@), k@),
{
    let ghost rv = string_views(removed@);
    let mut i: usize = 0;
    while i < removed.len()
        invariant
            i <= removed@.len(),
            removed@.len() == into@.len(),
            rv == string_views(removed@),
            first_index(rv, k@, i as int) is None,
        decreases removed.len() - i,
    {
        if str_eq(removed[i].as_str(), k) {
            proof {
                assert(first_index(rv, k@, i + 1) == Some(i as int));
                lemma_first_index_stable(rv, k@, i + 1, rv.len() as int);
            }
            return into[i].clone();
        }
        i = i + 1;
    }
    String::from_str(k)
}

proof fn lemma_first_index_stable(s: Seq<Seq<char>>, x: Seq<char>, k: int, n: int)
    requires
        0 <= k <= n,
        first_index(s, x, k) is Some,
    ensures
        first_index(s, x, n) == first_index(s, x, k),
    decreases n - k,
{
    if k < n {
        lemma_first_index_stable(s, x, k, n - 1);
    }
}

/// Orders the similar pairs into merges that can run one after another: a
/// pair whose name to remove is already gone is dropped, and a pair whose kept
/// name was merged away keeps the node it was merged into instead (a pair
/// that would then merge a node into itself is dropped too). The plan is safe.
pub fn merge_plan(pairs: &[(String, String)]) -> (plan: Vec<(String, String)>)
    ensures
        pair_views(plan@) == merge_plan_spec(pair_views(pairs@)),
        merge_plan_safe(pair_views(plan@)),
        forall|i: int| 0 <= i < plan@.len() ==> {
            &&& exists|j: int| 0 <= j < pairs@.len() && (#[trigger] pairs@[j]).1@ == (#[trigger] plan@[i]).1@
            &&& exists|j: int| 0 <= j < pairs@.len() && (#[trigger] pairs@[j]).0@ == plan@[i].0@
        },
{
    let ghost pv = pair_views(pairs@);
    let mut plan: Vec<(String, String)> = Vec::new();
    let mut removed: Vec<String> = Vec::new();
    let mut into: Vec<String> = Vec::new();
    let mut p: usize = 0;
    while p < pairs.len()
        invariant
            p <= pairs@.len(),
            pv == pair_views(pairs@),
            pv.len() == pairs@.len(),
            removed@.len() == into@.len(),
            removed@.len() == plan@.len(),
            string_views(removed@) == merge_state(pv, p as int).0,
            string_views(into@) == merge_state(pv, p as int).1,
            pair_views(plan@) == merge_state(pv, p as int).2,
            forall|a: int| 0 <= a < plan@.len() ==> (#[trigger] removed@[a])@ == plan@[a].1@,
            forall|a: int, b: int| 0 <= a < into@.len() && 0 <= b < removed@.len()
                ==> (#[trigger] into@[a])@ != (#[trigger] removed@[b])@,
            merge_plan_safe(pair_views(plan@)),
        decreases pairs.len() - p,
    {
        let ghost st = merge_state(pv, p as int);
        let keep = survivor(&removed, &into, pairs[p].0.as_str());
        let remove = &pairs[p].1;
        proof {
            assert(pv[p as int] == (pairs@[p as int].0@, pairs@[p as int].1@));
            assert(string_views(removed@).len() == removed@.len());
            lemma_first_index(string_views(removed@), pairs@[p as int].0@, removed@.len() as int);
        }
        if !is_known(&removed, remove.as_str()) && !str_eq(keep.as_str(), remove.as_str()) {
            proof {
                assert forall|b: int| 0 <= b < removed@.len() implies keep@ != (#[trigger] removed@[b])@ by {
                    assert(string_views(removed@)[b] == removed@[b]@);
                    match first_index(string_views(removed@), pairs@[p as int].0@, removed@.len() as int) {
                        Some(i) => {
                            assert(string_views(into@)[i] == into@[i]@);
                        },
                        None => {},
                    }
                }
                assert forall|b: int| 0 <= b < removed@.len() implies remove@ != (#[trigger] removed@[b])@ by {
                    assert(string_views(removed@)[b] == removed@[b]@);
                }
            }
            let ghost old_plan = plan@;
            let ghost old_removed = removed@;
            let ghost old_into = into@;
            let mut a: usize = 0;
            while a < into.len()
                invariant
                    a <= into@.len(),
                    into@.len() == old_into.len(),
                    into@.len() == removed@.len(),
                    removed@ == old_removed,
                    forall|c: int| 0 <= c < a ==> (#[trigger] into@[c])@
                        == (if old_into[c]@ == remove@ { keep@ } else { old_into[c]@ }),
                    forall|c: int| a <= c < into@.len() ==> (#[trigger] into@[c]) == old_into[c],
                    forall|c: int| 0 <= c < a ==> (#[trigger] into@[c])@ != remove@,
                    forall|c: int, b: int| 0 <= c < into@.len() && 0 <= b < removed@.len()
                        ==> (#[trigger] into@[c])@ != (#[trigger] removed@[b])@,
                    forall|b: int| 0 <= b < removed@.len() ==> keep@ != (#[trigger] removed@[b])@,
                    keep@ != remove@,
                decreases into.len() - a,
            {
                if str_eq(into[a].as_str(), remove.as_str()) {
                    into.set(a, keep.clone());
                }
                a = a + 1;
            }
            proof {
                assert(string_views(into@) =~= redirect(string_views(old_into), remove@, keep@));
            }
            removed.push(remove.clone());
            into.push(keep.clone());
            plan.push((keep, remove.clone()));
            proof {
                assert(string_views(removed@) =~= st.0.push(remove@));
                assert(string_views(into@) =~= redirect(st.1, remove@, keep@).push(keep@));
                assert(pair_views(plan@) =~= st.2.push((keep@, remove@)));
                let pv2 = pair_views(plan@);
                assert forall|i: int| 0 <= i < pv2.len() implies (#[trigger] pv2[i]).0 != pv2[i].1 by {
                    if i < old_plan.len() {
                        assert(pv2[i] == pair_views(old_plan)[i]);
                    }
                }
                assert forall|i: int, j: int| 0 <= j < i < pv2.len() implies {
                    &&& (#[trigger] pv2[i]).0 != (#[trigger] pv2[j]).1
                    &&& pv2[i].1 != pv2[j].1
                } by {
                    assert(pv2[j] == pair_views(old_plan)[j]);
                    if i < old_plan.len() {
                        assert(pv2[i] == pair_views(old_plan)[i]);
                    } else {
                        assert(removed@[j]@ == old_plan[j].1@);
                    }
                }
            }
        }
        p = p + 1;
    }
    proof {
        assert(pv.len() == pairs@.len());
        law_merge_plan_comes_from_pairs(pv);
        let mp = merge_plan_spec(pv);
        assert forall|i: int| 0 <= i < plan@.len() implies {
            &&& exists|j: int| 0 <= j < pairs@.len() && (#[trigger] pairs@[j]).1@ == (#[trigger] plan@[i]).1@
            &&& exists|j: int| 0 <= j < pairs@.len() && (#[trigger] pairs@[j]).0@ == plan@[i].0@
        } by {
            assert(pair_views(plan@)[i] == mp[i]);
            let j1 = choose|j: int| 0 <= j < pv.len() && (#[trigger] pv[j]).1 == mp[i].1;
            assert(pv[j1] == (pairs@[j1].0@, pairs@[j1].1@));
            let j2 = choose|j: int| 0 <= j < pv.len() && (#[trigger] pv[j]).0 == mp[i].0;
            assert(pv[j2] == (pairs@[j2].0@, pairs@[j2].1@));
        }
    }
    plan
}

/// The entity labels whose nodes are checked for near-duplicate names.
pub open spec fn is_merge_label(label: Seq<char>) -> bool {
    label == "Context"@ || label == "Item"@ || label == "Artifact"@
}

/// Threshold of name similarity (as `numerator / denominator`) above which
/// two nodes of one label are merged: 90%.
pub const MERGE_SIMILARITY_NUM: u32 = 9;
pub const MERGE_SIMILARITY_DEN: u32 = 10;

/// The labels whose nodes are merged, in the order they are processed.
pub fn merge_labels() -> (v: Vec<&'static str>)
    ensures
        v@.len() == 3,
        v@[0]@ == "Context"@,
        v@[1]@ == "Item"@,
        v@[2]@ == "Artifact"@,
{
    let mut v: Vec<&'static str> = Vec::new();
    v.push("Context");
    v.push("Item");
    v.push("Artifact");
    v
}

/// Query listing the names of the nodes of `label`, ordered by name.
pub fn node_names_query(label: &str) -> (q: CypherQuery)
    ensures
        q.text@ == "MATCH (n:"@ + label@ + ") RETURN n.name AS name ORDER BY n.name"@,
        q.params@.len() == 0,
{
    let mut t = String::from_str("MATCH (n:");
    t.append(label);
    t.append(") RETURN n.name AS name ORDER BY n.name");
    CypherQuery::new(t)
}

/// Query listing the relationships leaving the node `remove` of `label`:
/// the type and the element id of each.
pub fn outgoing_relations_query(label: &str, remove: &str) -> (q: CypherQuery)
    ensures
        q.text@ == "MATCH (source:"@ + label@
            + " {name: $remove})-[r]->(x) RETURN type(r) AS rel_type, elementId(r) AS rel_id"@,
        q.params@.len() == 1,
        text_param_is(q.params@[0], "remove"@, remove@),
{
    let mut t = String::from_str("MATCH (source:");
    t.append(label);
    t.append(" {name: $remove})-[r]->(x) RETURN type(r) AS rel_type, elementId(r) AS rel_id");
    CypherQuery::new(t).text_param("remove", String::from_str(remove))
}

/// Query listing the relationships reaching the node `remove` of `label`:
/// the type and the element id of each.
pub fn incoming_relations_query(label: &str, remove: &str) -> (q: CypherQuery)
    ensures
        q.text@ == "MATCH (y)-[r]->(source:"@ + label@
            + " {name: $remove}) RETURN type(r) AS rel_type, elementId(r) AS rel_id"@,
        q.params@.len() == 1,
        text_param_is(q.params@[0], "remove"@, remove@),
{
    let mut t = String::from_str("MATCH (y)-[r]->(source:");
    t.append(label);
    t.append(" {name: $remove}) RETURN type(r) AS rel_type, elementId(r) AS rel_id");
    CypherQuery::new(t).text_param("remove", String::from_str(remove))
}

/// A relationship of a node about to be removed, to re-create on the node
/// kept: its type, and its element id, by which the re-creating query finds
/// the node at the other end and the properties to copy, whatever that node is.
#[derive(Debug, Clone, PartialEq, Eq)]
pub struct Relink {
    pub rel_type: String,
    pub rel_id: String,
}

/// The relationship named by a query row. A row always carries both fields;
/// one that could not be read is empty and names no relationship.
pub fn relink_from_row(rel_type: String, rel_id: String) -> (r: Option<Relink>)
    ensures
        (rel_type@.len() > 0 && rel_id@.len() > 0) ==> r == Some(Relink { rel_type, rel_id }),
        !(rel_type@.len() > 0 && rel_id@.len() > 0) ==> r is None,
{
    if rel_type.unicode_len() == 0 || rel_id.unicode_len() == 0 {
        return None;
    }
    Some(Relink { rel_type, rel_id })
}

/// Re-creates the relationship `$rel_id`, which leaves the removed node, as a
/// relationship of the same type from the kept node to the same end node,
/// with the same properties.
pub open spec fn outgoing_relink_text(label: Seq<char>, r: Relink) -> Seq<char> {
    "MATCH (t:"@ + label + " {name: $keep}) MATCH ()-[old]->(x) WHERE elementId(old) = $rel_id MERGE (t)-[r:"@
        + r.rel_type@ + "]->(x) SET r += properties(old)"@
}

/// Re-creates the relationship `$rel_id`, which reaches the removed node, as a
/// relationship of the same type from the same start node to the kept node,
/// with the same properties.
pub open spec fn incoming_relink_text(label: Seq<char>, r: Relink) -> Seq<char> {
    "MATCH (t:"@ + label + " {name: $keep}) MATCH (y)-[old]->() WHERE elementId(old) = $rel_id MERGE (y)-[r:"@
        + r.rel_type@ + "]->(t) SET r += properties(old)"@
}

pub open spec fn delete_node_text(label: Seq<char>) -> Seq<char> {
    "MATCH (source:"@ + label + " {name: $remove}) DETACH DELETE source"@
}

/// Query that re-creates an outgoing relationship from the kept node.
pub fn outgoing_relink_query(label: &str, keep: &str, r: &Relink) -> (q: CypherQuery)
    ensures
        q.text@ == outgoing_relink_text(label@, *r),
        q.params@.len() == 2,
        text_param_is(q.params@[0], "keep"@, keep@),
        text_param_is(q.params@[1], "rel_id"@, r.rel_id@),
{
    let mut t = String::from_str("MATCH (t:");
    t.append(label);
    t.append(" {name: $keep}) MATCH ()-[old]->(x) WHERE elementId(old) = $rel_id MERGE (t)-[r:");
    t.append(r.rel_type.as_str());
    t.append("]->(x) SET r += properties(old)");
    CypherQuery::new(t).text_param("keep", String::from_str(keep)).text_param("rel_id", r.rel_id.clone())
}

/// Query that re-creates an incoming relationship onto the kept node.
pub fn incoming_relink_query(label: &str, keep: &str, r: &Relink) -> (q: CypherQuery)
    ensures
        q.text@ == incoming_relink_text(label@, *r),
        q.params@.len() == 2,
        text_param_is(q.params@[0], "keep"@, keep@),
        text_param_is(q.params@[1], "rel_id"@, r.rel_id@),
{
    let mut t = String::from_str("MATCH (t:");
    t.append(label);
    t.append(" {name: $keep}) MATCH (y)-[old]->() WHERE elementId(old) = $rel_id MERGE (y)-[r:");
    t.append(r.rel_type.as_str());
    t.append("]->(t) SET r += properties(old)");
    CypherQuery::new(t).text_param("keep", String::from_str(keep)).text_param("rel_id", r.rel_id.clone())
}

/// Query that deletes the merged node and its relationships.
pub fn delete_node_query(label: &str, remove: &str) -> (q: CypherQuery)
    ensures
        q.text@ == delete_node_text(label@),
        q.params@.len() == 1,
        text_param_is(q.params@[0], "remove"@, remove@),
{
    let mut t = String::from_str("MATCH (source:");
    t.append(label);
    t.append(" {name: $remove}) DETACH DELETE source");
    CypherQuery::new(t).text_param("remove", String::from_str(remove))
}

/// The queries that merge node `remove` into node `keep`, in the order they
/// run: every listed outgoing relationship re-created from `keep`, then every
/// listed incoming one re-created onto `keep` (each found by its element id,
/// so whatever node is at its other end, with its type and properties), then
/// `remove` deleted with what is left of its relationships.
pub fn merge_node_queries(label: &str, keep: &str, remove: &str, outgoing: &[Relink], incoming: &[Relink]) -> (qs: Vec<CypherQuery>)
    ensures
        qs@.len() == outgoing@.len() + incoming@.len() + 1,
        forall|i: int| 0 <= i < outgoing@.len() ==> {
            &&& (#[trigger] qs@[i]).text@ == outgoing_relink_text(label@, outgoing@[i])
            &&& qs@[i].params@.len() == 2
            &&& text_param_is(qs@[i].params@[0], "keep"@, keep@)
            &&& text_param_is(qs@[i].params@[1], "rel_id"@, outgoing@[i].rel_id@)
        },
        forall|i: int| 0 <= i < incoming@.len() ==> {
            &&& (#[trigger] qs@[outgoing@.len() + i]).text@ == incoming_relink_text(label@, incoming@[i])
            &&& qs@[outgoing@.len() + i].params@.len() == 2
            &&& text_param_is(qs@[outgoing@.len() + i].params@[0], "keep"@, keep@)
            &&& text_param_is(qs@[outgoing@.len() + i].params@[1], "rel_id"@, incoming@[i].rel_id@)
        },
        qs@.last().text@ == delete_node_text(label@),
        qs@.last().params@.len() == 1,
        text_param_is(qs@.last().params@[0], "remove"@, remove@),
{
    let mut qs: Vec<CypherQuery> = Vec::new();
    let mut i: usize = 0;
    while i < outgoing.len()
        invariant
            i <= outgoing@.len(),
            qs@.len() == i,
            forall|k: int| 0 <= k < i ==> {
                &&& (#[trigger] qs@[k]).text@ == outgoing_relink_text(label@, outgoing@[k])
                &&& qs@[k].params@.len() == 2
                &&& text_param_is(qs@[k].params@[0], "keep"@, keep@)
                &&& text_param_is(qs@[k].params@[1], "rel_id"@, outgoing@[k].rel_id@)
            },
        decreases outgoing.len() - i,
    {
        qs.push(outgoing_relink_query(label, keep, &outgoing[i]));
        i = i + 1;
    }
    let mut j: usize = 0;
    while j < incoming.len()
        invariant
            j <= incoming@.len(),
            qs@.len() == outgoing@.len() + j,
            forall|k: int| 0 <= k < outgoing@.len() ==> {
                &&& (#[trigger] qs@[k]).text@ == outgoing_relink_text(label@, outgoing@[k])
                &&& qs@[k].params@.len() == 2
                &&& text_param_is(qs@[k].params@[0], "keep"@, keep@)
                &&& text_param_is(qs@[k].params@[1], "rel_id"@, outgoing@[k].rel_id@)
            },
            forall|k: int| 0 <= k < j ==> {
                &&& (#[trigger] qs@[outgoing@.len() + k]).text@ == incoming_relink_text(label@, incoming@[k])
                &&& qs@[outgoing@.len() + k].params@.len() == 2
                &&& text_param_is(qs@[outgoing@.len() + k].params@[0], "keep"@, keep@)
                &&& text_param_is(qs@[outgoing@.len() + k].params@[1], "rel_id"@, incoming@[k].rel_id@)
            },
        decreases incoming.len() - j,
    {
        qs.push(incoming_relink_query(label, keep, &incoming[j]));
        j = j + 1;
    }
    qs.push(delete_node_query(label, remove));
    qs
}


/// System prompt for the memory compaction model (monthly episode summaries).
pub const COMPACTION_SYSTEM_PROMPT: &'static str = r#"# 役割
あなたは自律型パーソナルAIの「記憶圧縮システム」です。同一文脈における1ヶ月分の細かな活動記録（MemoryChunk群）を、1つの洗練された「月間エピソード要約」に圧縮しなさい。

# 圧縮ルール
1. 複数の細かな要約を読み込み、その月の活動全体を俯瞰した1つの要約（3〜5文）にまとめる。
2. 重要な成果物、学び、決定事項は必ず残す。
3. 細かすぎる日々の雑多な操作（タイポ修正、ログ追加など）は抽象化して「開発を継続した」などとまとめる。
4. 客観的な3人称（「ユーザーは〜」）で記述する。
5. ドメイン（domain）は元のチャンクから最も適切なものを選ぶ。

# 出力フォーマット
出力は必ず以下のJSON形式のみとし、余計な挨拶や解説のテキストは一切含めてはならない。

```json
{
  "summary": "（圧縮された月間要約）",
  "domain": "development | study | game | life | other"
}
```"#;

/// Memory chunks older than this many seconds (30 days) are compacted.
pub const COMPACTION_AGE_SECS: i64 = 2592000;

/// Timestamp before which memory chunks are old enough to compact.
pub fn compaction_cutoff(now: i64) -> (c: i64)
    requires
        now >= i64::MIN + COMPACTION_AGE_SECS,
    ensures
        c == now - 30 * 24 * 3600,
{
    now - COMPACTION_AGE_SECS
}

/// The current time and the compaction cutoff it gives; `None` when the
/// system clock gives no usable Unix time.
pub fn compaction_clock() -> (r: Option<(i64, i64)>)
    ensures
        r matches Some(c) ==> c.0 >= 0 && c.1 == c.0 - 30 * 24 * 3600,
{
    match unix_now() {
        Some(now) => Some((now, compaction_cutoff(now))),
        None => None,
    }
}

/// Text of the query that lists the memory chunks written at or before the
/// cutoff, once for each context they belong to.
pub const OLD_CHUNKS_QUERY: &'static str = "\n        MATCH (m:MemoryChunk)-[:BELONGS_TO]->(c:Context)\n        WHERE m.timestamp <= $cutoff\n        RETURN m.slot_id AS slot_id, m.summary AS summary, m.domain AS domain, m.timestamp AS timestamp, c.name AS context\n        ORDER BY c.name, m.timestamp\n        ";

/// Query listing the memory chunks written at or before `cutoff` with the
/// contexts they belong to, by context and time.
pub fn old_chunks_query(cutoff: i64) -> (q: CypherQuery)
    ensures
        q.text@ == OLD_CHUNKS_QUERY@,
        q.params@.len() == 1,
        int_param_is(q.params@[0], "cutoff"@, cutoff),
{
    CypherQuery::new(String::from_str(OLD_CHUNKS_QUERY)).int_param("cutoff", cutoff)
}

/// A memory chunk as the old-chunk query returns it, with one context it
/// belongs to.
#[derive(Debug, Clone, PartialEq, Eq)]
pub struct MemoryChunkRow {
    pub slot_id: String,
    pub summary: String,
    pub domain: String,
    pub timestamp: i64,
    pub context: String,
}

/// The old memory chunks of one context, in the order the query returned them.
#[derive(Debug, Clone, PartialEq, Eq)]
pub struct ContextChunks {
    pub context: String,
    pub chunks: Vec<MemoryChunkRow>,
}

pub open spec fn groups_view(v: Seq<ContextChunks>) -> Seq<(Seq<char>, Seq<MemoryChunkRow>)> {
    v.map_values(|g: ContextChunks| (g.context@, g.chunks@))
}

/// Index of the group of context `d` among the first `k` groups.
pub open spec fn group_index(groups: Seq<(Seq<char>, Seq<MemoryChunkRow>)>, d: Seq<char>, k: int) -> Option<int>
    decreases k,
{
    if k <= 0 {
        None
    } else {
        match group_index(groups, d, k - 1) {
            Some(i) => Some(i),
            None => if groups[k - 1].0 == d { Some(k - 1) } else { None },
        }
    }
}

/// Groups after filing one more chunk: appended to its context's group, or
/// opening a new group at the end.
pub open spec fn file_chunk(groups: Seq<(Seq<char>, Seq<MemoryChunkRow>)>, r: MemoryChunkRow) -> Seq<(Seq<char>, Seq<MemoryChunkRow>)> {
    match group_index(groups, r.context@, groups.len() as int) {
        Some(i) => groups.update(i, (groups[i].0, groups[i].1.push(r))),
        None => groups.push((r.context@, seq![r])),
    }
}

/// Some row before `k` has the slot id `id`.
pub open spec fn slot_seen(rows: Seq<MemoryChunkRow>, k: int, id: Seq<char>) -> bool {
    exists|j: int| 0 <= j < k && (#[trigger] rows[j]).slot_id@ == id
}

/// Row `m` is filed: it has a slot id that no earlier row has.
pub open spec fn files_row(rows: Seq<MemoryChunkRow>, m: int) -> bool {
    rows[m].slot_id@.len() > 0 && !slot_seen(rows, m, rows[m].slot_id@)
}

/// The groups formed by the first `k` rows. A row without a slot id is
/// dropped, and so is a row whose chunk an earlier row already filed (a chunk
/// of several contexts goes to the first of them).
pub open spec fn grouped(rows: Seq<MemoryChunkRow>, k: int) -> Seq<(Seq<char>, Seq<MemoryChunkRow>)>
    decreases k,
{
    if k <= 0 {
        Seq::empty()
    } else if files_row(rows, k - 1) {
        file_chunk(grouped(rows, k - 1), rows[k - 1])
    } else {
        grouped(rows, k - 1)
    }
}

fn copy_row(r: &MemoryChunkRow) -> (c: MemoryChunkRow)
    ensures
        c == *r,
{
    MemoryChunkRow {
        slot_id: r.slot_id.clone(),
        summary: r.summary.clone(),
        domain: r.domain.clone(),
        timestamp: r.timestamp,
        context: r.context.clone(),
    }
}

fn copy_rows(v: &Vec<MemoryChunkRow>) -> (c: Vec<MemoryChunkRow>)
    ensures
        c@ == v@,
{
    let mut c: Vec<MemoryChunkRow> = Vec::new();
    let mut i: usize = 0;
    while i < v.len()
        invariant
            i <= v@.len(),
            c@ == v@.take(i as int),
        decreases v.len() - i,
    {
        c.push(copy_row(&v[i]));
        assert(v@.take(i as int).push(v@[i as int]) =~= v@.take(i + 1));
        i = i + 1;
    }
    assert(v@.take(v@.len() as int) =~= v@);
    c
}

fn find_group(groups: &Vec<ContextChunks>, context: &str) -> (r: Option<usize>)
    ensures
        r matches Some(i) ==> group_index(groups_view(groups@), context@, groups@.len() as int) == Some(i as int)
            && i < groups@.len(),
        r is None ==> group_index(groups_view(groups@), context@, groups@.len() as int) is None,
{
    let ghost gv = groups_view(groups@);
    let mut i: usize = 0;
    while i < groups.len()
        invariant
            i <= groups@.len(),
            gv == groups_view(groups@),
            group_index(gv, context@, i as int) is None,
        decreases groups.len() - i,
    {
        if str_eq(groups[i].context.as_str(), context) {
            proof {
                assert(gv[i as int].0 == groups@[i as int].context@);
                assert(group_index(gv, context@, i + 1) == Some(i as int));
                lemma_group_index_stable(gv, context@, i + 1, groups@.len() as int);
            }
            return Some(i);
        }
        i = i + 1;
    }
    None
}

proof fn lemma_group_index_stable(groups: Seq<(Seq<char>, Seq<MemoryChunkRow>)>, d: Seq<char>, k: int, n: int)
    requires
        0 <= k <= n,
        group_index(groups, d, k) is Some,
    ensures
        group_index(groups, d, n) == group_index(groups, d, k),
    decreases n - k,
{
    if k < n {
        lemma_group_index_stable(groups, d, k, n - 1);
    }
}

/// Whether a row before `k` has the slot id `id`.
fn seen_before(rows: &[MemoryChunkRow], k: usize, id: &str) -> (b: bool)
    requires
        k <= rows@.len(),
    ensures
        b == slot_seen(rows@, k as int, id@),
{
    let mut j: usize = 0;
    while j < k
        invariant
            j <= k <= rows@.len(),
            forall|i: int| 0 <= i < j ==> (#[trigger] rows@[i]).slot_id@ != id@,
        decreases k - j,
    {
        if str_eq(rows[j].slot_id.as_str(), id) {
            return true;
        }
        j = j + 1;
    }
    false
}

/// Groups the old memory chunks by context, each group in the order the
/// chunks came and the groups in the order their contexts first appear. Rows
/// without a slot id are left out, and each chunk is filed once, under the
/// first of its contexts.
pub fn group_chunks_by_context(rows: &[MemoryChunkRow]) -> (groups: Vec<ContextChunks>)
    ensures
        groups_view(groups@) == grouped(rows@, rows@.len() as int),
{
    let mut groups: Vec<ContextChunks> = Vec::new();
    let mut k: usize = 0;
    while k < rows.len()
        invariant
            k <= rows@.len(),
            groups_view(groups@) == grouped(rows@, k as int),
        decreases rows.len() - k,
    {
        let r = &rows[k];
        if r.slot_id.unicode_len() > 0 && !seen_before(rows, k, r.slot_id.as_str()) {
            let ghost before = groups_view(groups@);
            match find_group(&groups, r.context.as_str()) {
                Some(i) => {
                    let mut chunks = copy_rows(&groups[i].chunks);
                    chunks.push(copy_row(r));
                    let g = ContextChunks { context: groups[i].context.clone(), chunks };
                    groups.set(i, g);
                    assert(groups_view(groups@) =~= before.update(i as int, (before[i as int].0, before[i as int].1.push(*r))));
                },
                None => {
                    let mut chunks: Vec<MemoryChunkRow> = Vec::new();
                    chunks.push(copy_row(r));
                    groups.push(ContextChunks { context: r.context.clone(), chunks });
                    assert(groups_view(groups@) =~= before.push((r.context@, seq![*r])));
                },
            }
        }
        k = k + 1;
    }
    groups
}

proof fn lemma_group_index(groups: Seq<(Seq<char>, Seq<MemoryChunkRow>)>, d: Seq<char>, k: int)
    requires
        0 <= k <= groups.len(),
    ensures
        group_index(groups, d, k) matches Some(i) ==> 0 <= i < k && groups[i].0 == d,
        group_index(groups, d, k) is None ==> forall|i: int| 0 <= i < k ==> (#[trigger] groups[i]).0 != d,
    decreases k,
{
    if k > 0 {
        lemma_group_index(groups, d, k - 1);
    }
}

/// The groups are well formed: contexts are distinct, no group is empty, and
/// every chunk has a slot id and the context of its group.
pub open spec fn groups_well_formed(groups: Seq<(Seq<char>, Seq<MemoryChunkRow>)>) -> bool {
    &&& forall|i: int, j: int| 0 <= i < j < groups.len() ==> (#[trigger] groups[i]).0 != (#[trigger] groups[j]).0
    &&& forall|i: int| 0 <= i < groups.len() ==> (#[trigger] groups[i]).1.len() > 0
    &&& forall|i: int, c: int| 0 <= i < groups.len() && 0 <= c < (#[trigger] groups[i]).1.len() ==> {
        &&& (#[trigger] groups[i].1[c]).context@ == groups[i].0
        &&& groups[i].1[c].slot_id@.len() > 0
    }
}

/// Row `r` is filed in the group of its context.
pub open spec fn filed(groups: Seq<(Seq<char>, Seq<MemoryChunkRow>)>, r: MemoryChunkRow) -> bool {
    exists|i: int| 0 <= i < groups.len() && (#[trigger] groups[i]).0 == r.context@ && groups[i].1.contains(r)
}

proof fn lemma_grouped(rows: Seq<MemoryChunkRow>, k: int)
    requires
        0 <= k <= rows.len(),
    ensures
        groups_well_formed(grouped(rows, k)),
        forall|m: int| 0 <= m < k && files_row(rows, m) ==> filed(grouped(rows, k), #[trigger] rows[m]),
    decreases k,
{
    if k > 0 {
        lemma_grouped(rows, k - 1);
        let g = grouped(rows, k - 1);
        let r = rows[k - 1];
        if files_row(rows, k - 1) {
            let g2 = file_chunk(g, r);
            lemma_group_index(g, r.context@, g.len() as int);
            match group_index(g, r.context@, g.len() as int) {
                Some(i) => {
                    assert(g2 == g.update(i, (g[i].0, g[i].1.push(r))));
                    assert forall|a: int, c: int| 0 <= a < g2.len() && 0 <= c < (#[trigger] g2[a]).1.len() implies {
                        &&& (#[trigger] g2[a].1[c]).context@ == g2[a].0
                        &&& g2[a].1[c].slot_id@.len() > 0
                    } by {
                        if a == i && c == g[i].1.len() {
                        } else if a == i {
                            assert(g2[a].1[c] == g[a].1[c]);
                        }
                    }
                    assert forall|m: int| 0 <= m < k && files_row(rows, m) implies filed(g2, #[trigger] rows[m]) by {
                        if m == k - 1 {
                            assert(g2[i].1.last() == r);
                            assert(g2[i].1.contains(r));
                        } else {
                            let a = choose|a: int| 0 <= a < g.len() && (#[trigger] g[a]).0 == rows[m].context@ && g[a].1.contains(rows[m]);
                            let c = choose|c: int| 0 <= c < g[a].1.len() && g[a].1[c] == rows[m];
                            if a == i {
                                assert(g2[a].1[c] == rows[m]);
                            }
                            assert(g2[a].1.contains(rows[m]));
                        }
                    }
                },
                None => {
                    assert(g2 == g.push((r.context@, seq![r])));
                    assert forall|a: int, c: int| 0 <= a < g2.len() && 0 <= c < (#[trigger] g2[a]).1.len() implies {
                        &&& (#[trigger] g2[a].1[c]).context@ == g2[a].0
                        &&& g2[a].1[c].slot_id@.len() > 0
                    } by {
                        if a < g.len() {
                            assert(g2[a] == g[a]);
                        }
                    }
                    assert forall|m: int| 0 <= m < k && files_row(rows, m) implies filed(g2, #[trigger] rows[m]) by {
                        if m == k - 1 {
                            assert(g2[g.len() as int].1[0] == r);
                            assert(g2[g.len() as int].1.contains(r));
                        } else {
                            let a = choose|a: int| 0 <= a < g.len() && (#[trigger] g[a]).0 == rows[m].context@ && g[a].1.contains(rows[m]);
                            assert(g2[a] == g[a]);
                        }
                    }
                },
            }
        }
    }
}

/// Grouping old chunks by context files every chunk that has a slot id: one
/// group per context, and the first row of each chunk in the group of its
/// context.
pub proof fn law_grouping_partitions_chunks(rows: Seq<MemoryChunkRow>)
    ensures
        groups_well_formed(grouped(rows, rows.len() as int)),
        forall|m: int| 0 <= m < rows.len() && files_row(rows, m)
            ==> filed(grouped(rows, rows.len() as int), #[trigger] rows[m]),
{
    lemma_grouped(rows, rows.len() as int);
}

/// A context is compacted when it has at least two old chunks.
pub fn needs_compaction(group: &ContextChunks) -> (b: bool)
    ensures
        b == (group.chunks@.len() >= 2),
{
    group.chunks.len() >= 2
}

/// The numbered list of the first `k` chunks, one per line: the chunk's
/// domain in brackets, then its summary.
pub open spec fn numbered_summaries(chunks: Seq<MemoryChunkRow>, k: int) -> Seq<char>
    decreases k,
{
    if k <= 0 {
        Seq::empty()
    } else {
        numbered_summaries(chunks, k - 1) + decimal(k as nat) + ". ["@ + chunks[k - 1].domain@ + "] "@
            + chunks[k - 1].summary@ + "\n"@
    }
}

/// The user message that asks for the compaction of one context's chunks.
pub open spec fn compaction_message_spec(context: Seq<char>, chunks: Seq<MemoryChunkRow>) -> Seq<char> {
    "コンテキスト: "@ + context + "\n\n圧縮対象の記憶:\n"@ + numbered_summaries(chunks, chunks.len() as int)
}

/// The numbered line of chunk `c` (counted from 0) in the compaction message.
pub open spec fn chunk_line(chunks: Seq<MemoryChunkRow>, c: int) -> Seq<char> {
    decimal((c + 1) as nat) + ". ["@ + chunks[c].domain@ + "] "@ + chunks[c].summary@ + "\n"@
}

spec fn occurs_at(x: Seq<char>, t: Seq<char>, i: int) -> bool {
    0 <= i && i + x.len() <= t.len() && t.subrange(i, i + x.len()) == x
}

proof fn lemma_occurs_in_prefix(x: Seq<char>, a: Seq<char>, b: Seq<char>, i: int)
    requires
        occurs_at(x, a, i),
    ensures
        occurs_at(x, a + b, i),
        occurs_at(x, b + a, b.len() + i),
{
    assert((a + b).subrange(i, i + x.len()) =~= a.subrange(i, i + x.len()));
    assert((b + a).subrange(b.len() + i, b.len() + i + x.len()) =~= a.subrange(i, i + x.len()));
}

proof fn lemma_occurs_trans(x: Seq<char>, y: Seq<char>, t: Seq<char>, p: int, q: int)
    requires
        occurs_at(x, y, p),
        occurs_at(y, t, q),
    ensures
        occurs_at(x, t, q + p),
{
    assert forall|k: int| 0 <= k < x.len() implies t.subrange(q + p, q + p + x.len())[k] == x[k] by {
        assert(y.subrange(p, p + x.len())[k] == y[p + k]);
        assert(t.subrange(q, q + y.len())[p + k] == t[q + p + k]);
    }
    assert(t.subrange(q + p, q + p + x.len()) =~= x);
}

proof fn lemma_numbered_line(chunks: Seq<MemoryChunkRow>, n: int, c: int) -> (i: int)
    requires
        0 <= c < n <= chunks.len(),
    ensures
        occurs_at(chunk_line(chunks, c), numbered_summaries(chunks, n), i),
    decreases n,
{
    let prev = numbered_summaries(chunks, n - 1);
    let line = chunk_line(chunks, n - 1);
    assert(numbered_summaries(chunks, n) =~= prev + line);
    if c < n - 1 {
        let i = lemma_numbered_line(chunks, n - 1, c);
        lemma_occurs_in_prefix(chunk_line(chunks, c), prev, line, i);
        i
    } else {
        assert(line.subrange(0, line.len() as int) =~= line);
        lemma_occurs_in_prefix(line, line, prev, 0);
        prev.len() as int
    }
}

/// The compaction message gives the model every chunk of the group: for
/// chunk `c`, its numbered line "c+1. [domain] summary" occurs in the message
/// at `pos.0`, and its summary at `pos.1`.
pub proof fn law_compaction_message_lists_every_chunk(context: Seq<char>, chunks: Seq<MemoryChunkRow>, c: int) -> (pos: (int, int))
    requires
        0 <= c < chunks.len(),
    ensures
        0 <= pos.0,
        pos.0 + chunk_line(chunks, c).len() <= compaction_message_spec(context, chunks).len(),
        compaction_message_spec(context, chunks).subrange(pos.0, pos.0 + chunk_line(chunks, c).len())
            == decimal((c + 1) as nat) + ". ["@ + chunks[c].domain@ + "] "@ + chunks[c].summary@ + "\n"@,
        0 <= pos.1,
        pos.1 + chunks[c].summary@.len() <= compaction_message_spec(context, chunks).len(),
        compaction_message_spec(context, chunks).subrange(pos.1, pos.1 + chunks[c].summary@.len()) == chunks[c].summary@,
{
    let n = chunks.len() as int;
    let head = "コンテキスト: "@ + context + "\n\n圧縮対象の記憶:\n"@;
    let body = numbered_summaries(chunks, n);
    let m = compaction_message_spec(context, chunks);
    assert(m == head + body);
    let line = chunk_line(chunks, c);
    let i = lemma_numbered_line(chunks, n, c);
    lemma_occurs_in_prefix(line, body, head, i);
    let q = head.len() + i;
    assert(occurs_at(line, m, q));
    let x = decimal((c + 1) as nat) + ". ["@ + chunks[c].domain@ + "] "@;
    let sm = chunks[c].summary@;
    assert(line =~= x + sm + "\n"@);
    assert((x + sm + "\n"@).subrange(x.len() as int, (x.len() + sm.len()) as int) =~= sm);
    assert(occurs_at(sm, line, x.len() as int));
    lemma_occurs_trans(sm, line, m, x.len() as int, q);
    (q, q + x.len())
}

pub fn compaction_user_message(group: &ContextChunks) -> (m: String)
    ensures
        m@ == compaction_message_spec(group.context@, group.chunks@),
        forall|c: int| 0 <= c < group.chunks@.len() ==> contains_seq(m@, (#[trigger] group.chunks@[c]).summary@),
{
    let mut list = String::new();
    let mut i: usize = 0;
    while i < group.chunks.len()
        invariant
            i <= group.chunks@.len(),
            list@ == numbered_summaries(group.chunks@, i as int),
        decreases group.chunks.len() - i,
    {
        let number: usize = i + 1;
        push_decimal(&mut list, number as u64);
        list.append(". [");
        list.append(group.chunks[i].domain.as_str());
        list.append("] ");
        list.append(group.chunks[i].summary.as_str());
        list.append("\n");
        i = i + 1;
    }
    let mut m = String::from_str("コンテキスト: ");
    m.append(group.context.as_str());
    m.append("\n\n圧縮対象の記憶:\n");
    m.append(list.as_str());
    proof {
        assert forall|c: int| 0 <= c < group.chunks@.len() implies contains_seq(m@, (#[trigger] group.chunks@[c]).summary@) by {
            let pos = law_compaction_message_lists_every_chunk(group.context@, group.chunks@, c);
            assert(m@.subrange(pos.1, pos.1 + group.chunks@[c].summary@.len()) == group.chunks@[c].summary@);
        }
    }
    m
}

/// The request that asks the model to compact one context's old chunks into a
/// monthly episode.
pub fn compaction_request(config: &Config, group: &ContextChunks) -> (r: ChatRequest)
    ensures
        r.url@ == join_url_spec(config.ai_base_url@, "/chat/completions"@),
        r.model == config.ai_model,
        r.bearer == config.ai_api_key,
        r.messages@.len() == 2,
        r.messages@[0].role@ == "system"@,
        r.messages@[0].content@ == COMPACTION_SYSTEM_PROMPT@,
        r.messages@[1].role@ == "user"@,
        r.messages@[1].content@ == compaction_message_spec(group.context@, group.chunks@),
        r.temperature_tenths == 1,
        r.response_format@ == "json_object"@,
{
    chat_request(config, String::from_str(COMPACTION_SYSTEM_PROMPT), compaction_user_message(group))
}

/// Text of the query that creates a monthly memory chunk.
pub const MONTHLY_CHUNK_QUERY: &'static str = "\n            CREATE (m:MonthlyMemoryChunk {\n                slot_id: $slot_id,\n                timestamp: $timestamp,\n                summary: $summary,\n                domain: $domain\n            })\n            ";

/// Query creating a monthly memory chunk with these properties.
pub fn monthly_chunk_query(slot_id: &str, timestamp: i64, summary: &str, domain: &str) -> (q: CypherQuery)
    ensures
        q.text@ == MONTHLY_CHUNK_QUERY@,
        q.params@.len() == 4,
        text_param_is(q.params@[0], "slot_id"@, slot_id@),
        int_param_is(q.params@[1], "timestamp"@, timestamp),
        text_param_is(q.params@[2], "summary"@, summary@),
        text_param_is(q.params@[3], "domain"@, domain@),
{
    CypherQuery::new(String::from_str(MONTHLY_CHUNK_QUERY))
        .text_param("slot_id", String::from_str(slot_id))
        .int_param("timestamp", timestamp)
        .text_param("summary", String::from_str(summary))
        .text_param("domain", String::from_str(domain))
}

/// Text of the query that links a monthly chunk to everything an old chunk
/// belongs to (its contexts and entities).
pub const MONTHLY_RELINK_QUERY: &'static str = "\n            MATCH (m:MonthlyMemoryChunk {slot_id: $slot_id})\n            MATCH (old:MemoryChunk {slot_id: $old_slot_id})-[:BELONGS_TO]->(e)\n            MERGE (m)-[:BELONGS_TO]->(e)\n            ";

/// Query linking the monthly chunk `slot_id` to what the old chunk
/// `old_slot_id` belongs to.
pub fn monthly_relink_query(slot_id: &str, old_slot_id: &str) -> (q: CypherQuery)
    ensures
        q.text@ == MONTHLY_RELINK_QUERY@,
        q.params@.len() == 2,
        text_param_is(q.params@[0], "slot_id"@, slot_id@),
        text_param_is(q.params@[1], "old_slot_id"@, old_slot_id@),
{
    CypherQuery::new(String::from_str(MONTHLY_RELINK_QUERY))
        .text_param("slot_id", String::from_str(slot_id))
        .text_param("old_slot_id", String::from_str(old_slot_id))
}

/// Query deleting one old memory chunk.
pub fn delete_chunk_query(slot_id: &str) -> (q: CypherQuery)
    ensures
        q.text@ == "MATCH (m:MemoryChunk {slot_id: $slot_id}) DETACH DELETE m"@,
        q.params@.len() == 1,
        text_param_is(q.params@[0], "slot_id"@, slot_id@),
{
    CypherQuery::new(String::from_str("MATCH (m:MemoryChunk {slot_id: $slot_id}) DETACH DELETE m"))
        .text_param("slot_id", String::from_str(slot_id))
}

/// The vector-store payload of a monthly chunk: its context is the group's
/// context, its domain the one the model chose.
pub fn monthly_payload(slot_id: &str, timestamp: i64, context: &str, compacted: &CompiledMemory) -> (p: QdrantPayload)
    ensures
        p.summary == compacted.summary,
        p.timestamp == timestamp,
        p.context_name@ == context@,
        p.domain == compacted.domain,
        p.slot_id@ == slot_id@,
{
    QdrantPayload {
        summary: compacted.summary.clone(),
        timestamp,
        context_name: String::from_str(context),
        domain: compacted.domain.clone(),
        slot_id: String::from_str(slot_id),
    }
}

/// One step of compacting a context's old chunks.
#[derive(Debug, Clone, PartialEq, Eq)]
pub enum CompactionStep {
    /// Run this query on the graph.
    Graph(CypherQuery),
    /// Delete the vector-store points whose payload has this slot id.
    DeletePoints(String),
    /// Embed the payload's summary and store it as a point.
    StorePoint(QdrantPayload),
}

/// The step creates the monthly chunk `slot_id` at `ts` with this summary and domain.
pub open spec fn creates_monthly(step: CompactionStep, slot_id: Seq<char>, ts: i64, summary: Seq<char>, domain: Seq<char>) -> bool {
    step matches CompactionStep::Graph(q) && {
        &&& q.text@ == MONTHLY_CHUNK_QUERY@
        &&& q.params@.len() == 4
        &&& text_param_is(q.params@[0], "slot_id"@, slot_id)
        &&& int_param_is(q.params@[1], "timestamp"@, ts)
        &&& text_param_is(q.params@[2], "summary"@, summary)
        &&& text_param_is(q.params@[3], "domain"@, domain)
    }
}

/// The step links the monthly chunk `slot_id` to what the old chunk `old` belongs to.
pub open spec fn relinks_chunk(step: CompactionStep, slot_id: Seq<char>, old: Seq<char>) -> bool {
    step matches CompactionStep::Graph(q) && {
        &&& q.text@ == MONTHLY_RELINK_QUERY@
        &&& q.params@.len() == 2
        &&& text_param_is(q.params@[0], "slot_id"@, slot_id)
        &&& text_param_is(q.params@[1], "old_slot_id"@, old)
    }
}

/// The step deletes the old chunk `old` from the graph.
pub open spec fn deletes_chunk(step: CompactionStep, old: Seq<char>) -> bool {
    step matches CompactionStep::Graph(q) && {
        &&& q.text@ == "MATCH (m:MemoryChunk {slot_id: $slot_id}) DETACH DELETE m"@
        &&& q.params@.len() == 1
        &&& text_param_is(q.params@[0], "slot_id"@, old)
    }
}

/// The step removes something: a chunk of the graph or points of the vector store.
pub open spec fn is_removal(step: CompactionStep) -> bool {
    ||| step is DeletePoints
    ||| exists|old: Seq<char>| deletes_chunk(step, old)
}

/// The steps that replace a context's old chunks by the monthly chunk
/// `slot_id`, written at `now` from the model's `compacted` answer: create the
/// monthly chunk; link it to what each old chunk belongs to; delete the old
/// chunks from the graph; delete their points from the vector store; store
/// the monthly chunk's point. A caller stops at the first step if it fails,
/// so nothing is removed unless the monthly chunk exists.
pub fn compaction_plan(slot_id: &str, now: i64, group: &ContextChunks, compacted: &CompiledMemory) -> (steps: Vec<CompactionStep>)
    ensures
        steps@.len() == 3 * group.chunks@.len() + 2,
        creates_monthly(steps@[0], slot_id@, now, compacted.summary@, compacted.domain@),
        forall|i: int| 0 <= i < group.chunks@.len() ==> {
            &&& relinks_chunk(#[trigger] steps@[1 + i], slot_id@, group.chunks@[i].slot_id@)
            &&& deletes_chunk(steps@[1 + group.chunks@.len() + i], group.chunks@[i].slot_id@)
            &&& steps@[1 + 2 * group.chunks@.len() + i] == CompactionStep::DeletePoints(group.chunks@[i].slot_id)
        },
        steps@[3 * group.chunks@.len() + 1int] matches CompactionStep::StorePoint(p) && {
            &&& p.summary == compacted.summary
            &&& p.timestamp == now
            &&& p.context_name@ == group.context@
            &&& p.domain == compacted.domain
            &&& p.slot_id@ == slot_id@
        },
        forall|i: int| 0 <= i < steps@.len() && is_removal(#[trigger] steps@[i]) ==> i > group.chunks@.len(),
{
    let n = group.chunks.len();
    let mut steps: Vec<CompactionStep> = Vec::new();
    steps.push(CompactionStep::Graph(monthly_chunk_query(slot_id, now, compacted.summary.as_str(), compacted.domain.as_str())));
    let mut i: usize = 0;
    while i < n
        invariant
            n == group.chunks@.len(),
            i <= n,
            steps@.len() == 1 + i,
            creates_monthly(steps@[0], slot_id@, now, compacted.summary@, compacted.domain@),
            forall|j: int| 0 <= j < i ==> relinks_chunk(#[trigger] steps@[1 + j], slot_id@, group.chunks@[j].slot_id@),
        decreases n - i,
    {
        steps.push(CompactionStep::Graph(monthly_relink_query(slot_id, group.chunks[i].slot_id.as_str())));
        i = i + 1;
    }
    let mut i: usize = 0;
    while i < n
        invariant
            n == group.chunks@.len(),
            i <= n,
            steps@.len() == 1 + n + i,
            creates_monthly(steps@[0], slot_id@, now, compacted.summary@, compacted.domain@),
            forall|j: int| 0 <= j < n ==> relinks_chunk(#[trigger] steps@[1 + j], slot_id@, group.chunks@[j].slot_id@),
            forall|j: int| 0 <= j < i ==> deletes_chunk(#[trigger] steps@[1 + n + j], group.chunks@[j].slot_id@),
        decreases n - i,
    {
        steps.push(CompactionStep::Graph(delete_chunk_query(group.chunks[i].slot_id.as_str())));
        i = i + 1;
    }
    let mut i: usize = 0;
    while i < n
        invariant
            n == group.chunks@.len(),
            i <= n,
            steps@.len() == 1 + 2 * n + i,
            creates_monthly(steps@[0], slot_id@, now, compacted.summary@, compacted.domain@),
            forall|j: int| 0 <= j < n ==> relinks_chunk(#[trigger] steps@[1 + j], slot_id@, group.chunks@[j].slot_id@),
            forall|j: int| 0 <= j < n ==> deletes_chunk(#[trigger] steps@[1 + n + j], group.chunks@[j].slot_id@),
            forall|j: int| 0 <= j < i ==> #[trigger] steps@[1 + 2 * n + j] == CompactionStep::DeletePoints(group.chunks@[j].slot_id),
        decreases n - i,
    {
        steps.push(CompactionStep::DeletePoints(group.chunks[i].slot_id.clone()));
        i = i + 1;
    }
    steps.push(CompactionStep::StorePoint(monthly_payload(slot_id, now, group.context.as_str(), compacted)));
    proof {
        assert forall|i: int| 0 <= i < steps@.len() && is_removal(#[trigger] steps@[i]) implies i > n by {
            if 1 <= i <= n {
                assert(relinks_chunk(steps@[1 + (i - 1)], slot_id@, group.chunks@[i - 1].slot_id@));
            }
        }
    }
    steps
}

/// Progress through the steps of a compaction plan.
#[derive(Debug, Clone, PartialEq, Eq)]
pub struct CompactionRun {
    /// Index of the next step to run.
    pub next: usize,
    /// The first step, which creates the monthly chunk, succeeded.
    pub created: bool,
    /// The run stopped because the monthly chunk could not be created.
    pub stopped: bool,
}

/// The run is consistent: once it is past the first step and has not
/// stopped, the monthly chunk exists.
pub open spec fn run_consistent(r: CompactionRun) -> bool {
    (r.next > 0 && !r.stopped) ==> r.created
}

impl CompactionRun {
    /// A run that has not started.
    pub fn start() -> (r: CompactionRun)
        ensures
            r.next == 0,
            !r.created,
            !r.stopped,
            run_consistent(r),
    {
        CompactionRun { next: 0, created: false, stopped: false }
    }

    /// The step to run next out of `total`: none once the run has stopped or
    /// every step has run. In a consistent run, a step after the first is
    /// offered only when the monthly chunk exists.
    pub fn next_step(&self, total: usize) -> (s: Option<usize>)
        ensures
            s == (if !self.stopped && self.next < total { Some(self.next) } else { None::<usize> }),
            run_consistent(*self) ==> (s matches Some(i) && i > 0 ==> self.created),
    {
        if !self.stopped && self.next < total {
            Some(self.next)
        } else {
            None
        }
    }

    /// The run after its next step ended (`ok` when it succeeded): a failed
    /// first step stops the run; a failed later step does not.
    pub fn record(self, ok: bool) -> (r: CompactionRun)
        requires
            self.next < usize::MAX,
        ensures
            r.next == self.next + 1,
            r.created == (self.created || (self.next == 0 && ok)),
            r.stopped == (self.stopped || (self.next == 0 && !ok)),
            run_consistent(self) ==> run_consistent(r),
    {
        let first = self.next == 0;
        CompactionRun {
            next: self.next + 1,
            created: self.created || (first && ok),
            stopped: self.stopped || (first && !ok),
        }
    }
}

/// Queries listing the slot ids of the memory chunks and of the monthly chunks.
pub fn chunk_ids_queries() -> (qs: Vec<CypherQuery>)
    ensures
        qs@.len() == 2,
        qs@[0].text@ == "MATCH (m:MemoryChunk) RETURN m.slot_id AS slot_id"@,
        qs@[1].text@ == "MATCH (m:MonthlyMemoryChunk) RETURN m.slot_id AS slot_id"@,
        qs@[0].params@.len() == 0,
        qs@[1].params@.len() == 0,
{
    let mut qs: Vec<CypherQuery> = Vec::new();
    qs.push(CypherQuery::new(String::from_str("MATCH (m:MemoryChunk) RETURN m.slot_id AS slot_id")));
    qs.push(CypherQuery::new(String::from_str("MATCH (m:MonthlyMemoryChunk) RETURN m.slot_id AS slot_id")));
    qs
}

/// A point of the vector store as the scroll returns it: its id and the slot
/// id of its payload, where they are strings.
#[derive(Debug, Clone, PartialEq, Eq)]
pub struct ScrolledPoint {
    pub id: Option<String>,
    pub slot_id: Option<String>,
}

/// Where a scroll through the vector store resumes: a point id, numeric or
/// textual, as the store gives it.
#[derive(Debug, Clone, PartialEq, Eq)]
pub enum ScrollOffset {
    Num(u64),
    Text(String),
}

/// Progress of a scroll through every point of the vector store, one page at
/// a time.
#[derive(Debug, Clone, PartialEq, Eq)]
pub struct ScrollCursor {
    /// Offset to ask the next page from; `None` asks for the first page.
    pub offset: Option<ScrollOffset>,
    /// Every page has been read.
    pub done: bool,
}

impl ScrollCursor {
    /// A scroll that has read nothing yet.
    pub fn start() -> (c: ScrollCursor)
        ensures
            c.offset is None,
            !c.done,
    {
        ScrollCursor { offset: None, done: false }
    }

    /// The scroll after a page whose answer gave `next_page_offset`: it goes
    /// on from that offset, and is done when the store gave none.
    pub fn advance(self, next_page_offset: Option<ScrollOffset>) -> (c: ScrollCursor)
        ensures
            c.done == (next_page_offset is None),
            c.offset == next_page_offset,
    {
        let done = next_page_offset.is_none();
        ScrollCursor { offset: next_page_offset, done }
    }
}

/// Ids of the points before `k` whose slot id no graph chunk has.
pub open spec fn orphan_ids(known: Seq<Seq<char>>, points: Seq<ScrolledPoint>, k: int) -> Seq<Seq<char>>
    decreases k,
{
    if k <= 0 {
        Seq::empty()
    } else {
        let prev = orphan_ids(known, points, k - 1);
        let p = points[k - 1];
        match (p.slot_id, p.id) {
            (Some(s), Some(id)) => if !known.contains(s@) { prev.push(id@) } else { prev },
            _ => prev,
        }
    }
}

/// The point has both an id and a slot id, and no graph chunk has that slot id.
pub open spec fn is_orphan(known: Seq<Seq<char>>, p: ScrolledPoint) -> bool {
    match (p.slot_id, p.id) {
        (Some(s), Some(_)) => !known.contains(s@),
        _ => false,
    }
}

#[verifier::spinoff_prover]
proof fn lemma_orphan_ids(known: Seq<Seq<char>>, points: Seq<ScrolledPoint>, k: int)
    requires
        0 <= k <= points.len(),
    ensures
        forall|c: int| 0 <= c < orphan_ids(known, points, k).len() ==> exists|i: int|
            0 <= i < k && is_orphan(known, #[trigger] points[i])
                && points[i].id->Some_0@ == #[trigger] orphan_ids(known, points, k)[c],
        forall|i: int| 0 <= i < k && is_orphan(known, #[trigger] points[i])
            ==> orphan_ids(known, points, k).contains(points[i].id->Some_0@),
    decreases k,
{
    if k > 0 {
        lemma_orphan_ids(known, points, k - 1);
        let prev = orphan_ids(known, points, k - 1);
        let cur = orphan_ids(known, points, k);
        assert forall|c: int| 0 <= c < cur.len() implies exists|i: int|
            0 <= i < k && is_orphan(known, #[trigger] points[i])
                && points[i].id->Some_0@ == #[trigger] cur[c] by {
            if c < prev.len() {
                assert(cur[c] == prev[c]);
            } else {
                assert(is_orphan(known, points[k - 1]));
            }
        }
        assert forall|i: int| 0 <= i < k && is_orphan(known, #[trigger] points[i])
            implies cur.contains(points[i].id->Some_0@) by {
            if i < k - 1 {
                let c = choose|c: int| 0 <= c < prev.len() && prev[c] == points[i].id->Some_0@;
                assert(cur[c] == prev[c]);
            } else {
                assert(cur[cur.len() - 1] == points[i].id->Some_0@);
            }
        }
    }
}

/// The orphan audit removes exactly the points whose slot id no graph chunk
/// (monthly or not) has: each id returned is such a point's, and every such
/// point's id is returned.
#[verifier::spinoff_prover]
pub proof fn law_orphan_audit_is_exact(known: Seq<Seq<char>>, points: Seq<ScrolledPoint>)
    ensures
        forall|c: int| 0 <= c < orphan_ids(known, points, points.len() as int).len() ==> exists|i: int|
            0 <= i < points.len() && is_orphan(known, #[trigger] points[i])
                && points[i].id->Some_0@ == #[trigger] orphan_ids(known, points, points.len() as int)[c],
        forall|i: int| 0 <= i < points.len() && is_orphan(known, #[trigger] points[i])
            ==> orphan_ids(known, points, points.len() as int).contains(points[i].id->Some_0@),
{
    lemma_orphan_ids(known, points, points.len() as int);
}

fn is_known(known: &[String], s: &str) -> (r: bool)
    ensures
        r == string_views(known@).contains(s@),
{
    let ghost kv = string_views(known@);
    let mut i: usize = 0;
    while i < known.len()
        invariant
            i <= known@.len(),
            kv == string_views(known@),
            forall|j: int| 0 <= j < i ==> kv[j] != s@,
        decreases known.len() - i,
    {
        if str_eq(known[i].as_str(), s) {
            assert(kv[i as int] == s@);
            return true;
        }
        i = i + 1;
    }
    false
}

/// The points to delete from the vector store: those whose slot id matches
/// no memory chunk of the graph.
/// Some point with id `id` has a payload slot id that none of the `known`
/// slot ids equals.
pub open spec fn from_unknown_slot(known: Seq<String>, points: Seq<ScrolledPoint>, id: Seq<char>) -> bool {
    exists|i: int| 0 <= i < points.len() && (#[trigger] points[i]).id is Some && points[i].id->Some_0@ == id
        && points[i].slot_id is Some
        && forall|j: int| 0 <= j < known.len() ==> (#[trigger] known[j])@ != points[i].slot_id->Some_0@
}

/// Every id the orphan audit returns belongs to a point whose payload slot
/// id is none of the known graph slot ids (every known id counts): the point
/// `i` returned here.
pub proof fn law_orphan_audit_spares_known_slots(known: Seq<Seq<char>>, points: Seq<ScrolledPoint>, c: int) -> (i: int)
    requires
        0 <= c < orphan_ids(known, points, points.len() as int).len(),
    ensures
        0 <= i < points.len(),
        points[i].id is Some,
        points[i].id->Some_0@ == orphan_ids(known, points, points.len() as int)[c],
        points[i].slot_id is Some,
        forall|j: int| 0 <= j < known.len() ==> known[j] != points[i].slot_id->Some_0@,
{
    lemma_orphan_ids(known, points, points.len() as int);
    let r = orphan_ids(known, points, points.len() as int);
    let i = choose|i: int| 0 <= i < points.len() && is_orphan(known, #[trigger] points[i])
        && points[i].id->Some_0@ == r[c];
    let s = points[i].slot_id->Some_0@;
    assert forall|j: int| 0 <= j < known.len() implies known[j] != s by {
        if known[j] == s {
            assert(known.contains(s));
        }
    }
    i
}

/// The orphan audit returns the id of every point that has an id and a
/// payload slot id that none of the known graph slot ids equals.
pub proof fn law_orphan_audit_finds_unknown_slots(known: Seq<Seq<char>>, points: Seq<ScrolledPoint>, i: int)
    requires
        0 <= i < points.len(),
        points[i].id is Some,
        points[i].slot_id is Some,
        forall|j: int| 0 <= j < known.len() ==> known[j] != points[i].slot_id->Some_0@,
    ensures
        orphan_ids(known, points, points.len() as int).contains(points[i].id->Some_0@),
{
    lemma_orphan_ids(known, points, points.len() as int);
    assert(is_orphan(known, points[i]));
}

pub fn orphan_point_ids(known_slot_ids: &[String], points: &[ScrolledPoint]) -> (r: Vec<String>)
    ensures
        string_views(r@) == orphan_ids(string_views(known_slot_ids@), points@, points@.len() as int),
        forall|c: int| 0 <= c < r@.len() ==> from_unknown_slot(known_slot_ids@, points@, (#[trigger] r@[c])@),
{
    let mut r: Vec<String> = Vec::new();
    let mut i: usize = 0;
    while i < points.len()
        invariant
            i <= points@.len(),
            string_views(r@) == orphan_ids(string_views(known_slot_ids@), points@, i as int),
        decreases points.len() - i,
    {
        let p = &points[i];
        let ghost before = r@;
        match (&p.slot_id, &p.id) {
            (Some(s), Some(id)) => {
                if !is_known(known_slot_ids, s.as_str()) {
                    r.push(id.clone());
                    assert(string_views(r@) =~= string_views(before).push(id@));
                }
            },
            _ => {},
        }
        i = i + 1;
    }
    proof {
        let kv = string_views(known_slot_ids@);
        let ov = orphan_ids(kv, points@, points@.len() as int);
        assert forall|c: int| 0 <= c < r@.len() implies from_unknown_slot(known_slot_ids@, points@, (#[trigger] r@[c])@) by {
            assert(string_views(r@)[c] == r@[c]@);
            let k = law_orphan_audit_spares_known_slots(kv, points@, c);
            let sv = points@[k].slot_id->Some_0@;
            assert forall|j: int| 0 <= j < known_slot_ids@.len() implies (#[trigger] known_slot_ids@[j])@ != sv by {
                assert(kv[j] == known_slot_ids@[j]@);
            }
        }
    }
    r
}

/// The labels whose unconnected nodes are deleted.
pub fn orphan_labels() -> (v: Vec<&'static str>)
    ensures
        v@.len() == 2,
        v@[0]@ == "Item"@,
        v@[1]@ == "Artifact"@,
{
    let mut v: Vec<&'static str> = Vec::new();
    v.push("Item");
    v.push("Artifact");
    v
}

/// Text of the query deleting the unattached nodes of `label`.
pub open spec fn orphan_node_text(label: Seq<char>) -> Seq<char> {
    "\n            MATCH (n:"@ + label + ")\n            WHERE NOT (n)--(:Context)\n            AND NOT (:MemoryChunk)-->(n)\n            AND NOT (:MonthlyMemoryChunk)-->(n)\n            DETACH DELETE n\n            "@
}

/// Query deleting the nodes of `label` that belong to no context (no
/// relationship either way with a `Context` node) and that no memory chunk
/// points to. A monthly chunk stands for the chunks it compacted, so a node
/// it points to is kept too. The relationships of a deleted node go with it.
pub fn orphan_nodes_query(label: &str) -> (q: CypherQuery)
    ensures
        q.text@ == orphan_node_text(label@),
        q.params@.len() == 0,
{
    let mut t = String::from_str("\n            MATCH (n:");
    t.append(label);
    t.append(")\n            WHERE NOT (n)--(:Context)\n            AND NOT (:MemoryChunk)-->(n)\n            AND NOT (:MonthlyMemoryChunk)-->(n)\n            DETACH DELETE n\n            ");
    CypherQuery::new(t)
}

} // verus!
