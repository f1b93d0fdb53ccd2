//! The Merkle root: one digest that commits to an ordered list of
//! transactions by pairwise reduction of their content hashes.
//!
//! The leaves are the content hashes of the transactions. A level of odd
//! length is padded with its own last digest; the consecutive pairs of a
//! level, taken from the left, are hashed into the level above; the one digest
//! of the last level is the root. A list of one transaction is padded and
//! paired like any other odd level, and the list of no transactions has the
//! sentinel digest as its root.

use vstd::prelude::*;
use vstd::utf8::encode_utf8;
use crate::chain::Chain;
use crate::digest::{digest_hex, sha256, zero_hash, zero_hash_text};
use crate::hex::lemma_hex_text_injective;
use crate::json::{
    json_string, lemma_json_string_injective, lemma_transaction_json_injective, transaction_json,
};
use crate::record::{transaction_views, Transaction, TransactionView};

verus! {

/// The digest of a pair: the content hash of the text made of the left digest
/// followed by the right one.
pub open spec fn parent_digest(left: Seq<char>, right: Seq<char>) -> Seq<char> {
    digest_hex(json_string(left + right))
}

/// A level made even: one of odd length gets its last digest once more.
pub open spec fn padded(level: Seq<Seq<char>>) -> Seq<Seq<char>> {
    if level.len() % 2 == 1 {
        level.push(level.last())
    } else {
        level
    }
}

/// The parents of the consecutive pairs of an even level, taken from the left.
pub open spec fn paired(level: Seq<Seq<char>>) -> Seq<Seq<char>> {
    Seq::new(level.len() / 2, |i: int| parent_digest(level[2 * i], level[2 * i + 1]))
}

/// The level above: the given one padded, then paired.
pub open spec fn next_level(level: Seq<Seq<char>>) -> Seq<Seq<char>> {
    paired(padded(level))
}

/// The one digest that a level reduces to. A level of one digest is still
/// padded and paired once; the empty level reduces to the sentinel.
pub open spec fn reduced(level: Seq<Seq<char>>) -> Seq<char>
    decreases level.len(),
{
    if level.len() == 0 {
        zero_hash()
    } else if level.len() <= 2 {
        next_level(level)[0]
    } else {
        reduced(next_level(level))
    }
}

/// The content hashes of the transactions, in order.
pub open spec fn leaf_digests(transactions: Seq<TransactionView>) -> Seq<Seq<char>> {
    transactions.map_values(|t: TransactionView| digest_hex(transaction_json(t)))
}

/// The Merkle root of an ordered list of transactions.
pub open spec fn merkle_root(transactions: Seq<TransactionView>) -> Seq<char> {
    reduced(leaf_digests(transactions))
}

/// The texts of a sequence of strings, in order.
spec fn texts(strings: Seq<String>) -> Seq<Seq<char>> {
    strings.map_values(|s: String| s@)
}

/// The texts of a sequence with one more string are the texts of the sequence
/// with one more text.
proof fn lemma_texts_push(strings: Seq<String>, last: String)
    ensures
        texts(strings.push(last)) == texts(strings).push(last@),
{
}

/// Pads a level to an even length and hashes its pairs from the left.
fn level_above(level: Vec<String>) -> (next: Vec<String>)
    ensures
        texts(next@) == next_level(texts(level@)),
{
    let mut level = level;
    let ghost given = texts(level@);
    if level.len() % 2 == 1 {
        let last = level[level.len() - 1].clone();
        level.push(last);
    }
    let pairs: usize = level.len() / 2;
    let mut next: Vec<String> = Vec::new();
    let mut k: usize = 0;
    while k < pairs
        invariant
            k <= pairs,
            pairs == level.len() / 2,
            level.len() % 2 == 0,
            texts(level@) == padded(given),
            texts(next@) == paired(padded(given)).take(k as int),
        decreases pairs - k,
    {
        let mut pair = level[2 * k].clone();
        pair.append(level[2 * k + 1].as_str());
        let parent = Chain::hash(&pair);
        proof {
            lemma_texts_push(next@, parent);
        }
        next.push(parent);
        k += 1;
    }
    next
}

impl Chain {
    /// The Merkle root of an ordered list of transactions: the leaves are the
    /// content hashes of the transactions; each level is padded with its last
    /// digest if it is odd and reduced pair by pair from the left, until one
    /// digest is left. The root of the empty list is the sentinel digest.
    pub fn get_merkle_root(current_transactions: &[Transaction]) -> (root: String)
        ensures
            root@ == merkle_root(transaction_views(current_transactions@)),
    {
        let ghost leaves = leaf_digests(transaction_views(current_transactions@));
        let mut merkle: Vec<String> = Vec::new();
        let mut i: usize = 0;
        while i < current_transactions.len()
            invariant
                i <= current_transactions.len(),
                leaves == leaf_digests(transaction_views(current_transactions@)),
                texts(merkle@) == leaves.take(i as int),
            decreases current_transactions.len() - i,
        {
            let transaction_hash = Chain::hash(&current_transactions[i]);
            proof {
                lemma_texts_push(merkle@, transaction_hash);
            }
            merkle.push(transaction_hash);
            i += 1;
        }
        assert(texts(merkle@) =~= leaves);
        if merkle.len() == 0 {
            return zero_hash_text();
        }
        loop
            invariant
                merkle.len() > 0,
                leaves == leaf_digests(transaction_views(current_transactions@)),
                reduced(texts(merkle@)) == reduced(leaves),
            decreases merkle.len(),
        {
            let last_round = merkle.len() <= 2;
            let mut next = level_above(merkle);
            assert(next@.len() == texts(next@).len());
            if last_round {
                return next.remove(0);
            }
            merkle = next;
        }
    }
}

/// The root is a function of what the transactions hold: two lists of the same
/// length whose transactions hold the same values, place by place, have the
/// same root.
pub proof fn lemma_root_deterministic(first: Seq<Transaction>, second: Seq<Transaction>)
    requires
        first.len() == second.len(),
        forall|i: int| 0 <= i < first.len() ==> first[i]@ == second[i]@,
    ensures
        merkle_root(transaction_views(first)) == merkle_root(transaction_views(second)),
{
    assert(transaction_views(first) =~= transaction_views(second));
}

/// The root of a single transaction is the digest of its content hash paired
/// with itself.
pub proof fn lemma_single_leaf_root(transaction: TransactionView)
    ensures
        merkle_root(seq![transaction]) == parent_digest(
            digest_hex(transaction_json(transaction)),
            digest_hex(transaction_json(transaction)),
        ),
{
}

/// The text whose digest is the `k`-th parent above a level.
pub open spec fn pair_text(level: Seq<Seq<char>>, k: int) -> Seq<char> {
    json_string(padded(level)[2 * k] + padded(level)[2 * k + 1])
}

/// The texts whose digests are taken on the way from a level to its root.
pub open spec fn texts_hashed_above(level: Seq<Seq<char>>) -> Set<Seq<char>>
    decreases level.len(),
{
    let pairs = Set::new(
        |text: Seq<char>|
            exists|k: int| 0 <= k < next_level(level).len() && text == pair_text(level, k),
    );
    if level.len() <= 2 {
        pairs
    } else {
        pairs.union(texts_hashed_above(next_level(level)))
    }
}

/// The texts whose digests are taken on the way from a list of transactions
/// to its root: the canonical texts of the transactions and the texts of the
/// pairs of every level.
pub open spec fn texts_hashed_for(transactions: Seq<TransactionView>) -> Set<Seq<char>> {
    Set::new(
        |text: Seq<char>|
            exists|i: int|
                0 <= i < transactions.len() && text == transaction_json(transactions[i]),
    ).union(texts_hashed_above(leaf_digests(transactions)))
}

/// Whether SHA-256 tells the texts of one set from those of the other: no
/// text of the first set has the digest of a different text of the second.
pub open spec fn digests_differ_between(first: Set<Seq<char>>, second: Set<Seq<char>>) -> bool {
    forall|x: Seq<char>, y: Seq<char>|
        #![trigger first.contains(x), second.contains(y)]
        first.contains(x) && second.contains(y) && x != y ==> sha256(encode_utf8(x))@ != sha256(
            encode_utf8(y),
        )@
}

/// Whether every digest of a level has the length of a content hash.
spec fn digests_sized(level: Seq<Seq<char>>) -> bool {
    forall|i: int| 0 <= i < level.len() ==> (#[trigger] level[i]).len() == 64
}

proof fn lemma_digests_differ_between_subsets(
    first: Set<Seq<char>>,
    second: Set<Seq<char>>,
    first_part: Set<Seq<char>>,
    second_part: Set<Seq<char>>,
)
    requires
        digests_differ_between(first, second),
        first_part.subset_of(first),
        second_part.subset_of(second),
    ensures
        digests_differ_between(first_part, second_part),
{
}

/// Two levels of the same length that differ in some place reduce to different
/// digests, unless two different texts hashed on the way share a SHA-256
/// digest.
proof fn lemma_levels_sensitive(first: Seq<Seq<char>>, second: Seq<Seq<char>>)
    requires
        first.len() == second.len(),
        first != second,
        digests_sized(first),
        digests_sized(second),
        digests_differ_between(texts_hashed_above(first), texts_hashed_above(second)),
    ensures
        reduced(first) != reduced(second),
    decreases first.len(),
{
    if forall|i: int| 0 <= i < first.len() ==> first[i] == second[i] {
        assert(first =~= second);
    }
    let i: int = choose|i: int| 0 <= i < first.len() && first[i] != second[i];
    let k: int = i / 2;
    let p = padded(first);
    let q = padded(second);
    let a = p[2 * k] + p[2 * k + 1];
    let b = q[2 * k] + q[2 * k + 1];
    if a == b {
        assert(p[2 * k] =~= a.take(64));
        assert(q[2 * k] =~= b.take(64));
        assert(p[2 * k + 1] =~= a.skip(64));
        assert(q[2 * k + 1] =~= b.skip(64));
        assert(false);
    }
    if json_string(a) == json_string(b) {
        lemma_json_string_injective(a, b);
    }
    assert(texts_hashed_above(first).contains(pair_text(first, k)));
    assert(texts_hashed_above(second).contains(pair_text(second, k)));
    let above_first = next_level(first);
    let above_second = next_level(second);
    if above_first[k] == above_second[k] {
        lemma_hex_text_injective(
            sha256(encode_utf8(json_string(a)))@,
            sha256(encode_utf8(json_string(b)))@,
        );
    }
    if first.len() > 2 {
        lemma_digests_differ_between_subsets(
            texts_hashed_above(first),
            texts_hashed_above(second),
            texts_hashed_above(above_first),
            texts_hashed_above(above_second),
        );
        lemma_levels_sensitive(above_first, above_second);
    }
}

/// Two lists of the same length that differ in some transaction have different
/// roots, unless two different texts hashed on the way share a SHA-256
/// digest.
pub proof fn lemma_root_sensitive(first: Seq<TransactionView>, second: Seq<TransactionView>)
    requires
        first.len() == second.len(),
        first != second,
        digests_differ_between(texts_hashed_for(first), texts_hashed_for(second)),
    ensures
        merkle_root(first) != merkle_root(second),
{
    if forall|i: int| 0 <= i < first.len() ==> first[i] == second[i] {
        assert(first =~= second);
    }
    let i: int = choose|i: int| 0 <= i < first.len() && first[i] != second[i];
    let a = transaction_json(first[i]);
    let b = transaction_json(second[i]);
    if a == b {
        lemma_transaction_json_injective(first[i], second[i]);
    }
    assert(texts_hashed_for(first).contains(a));
    assert(texts_hashed_for(second).contains(b));
    let first_leaves = leaf_digests(first);
    let second_leaves = leaf_digests(second);
    if first_leaves[i] == second_leaves[i] {
        lemma_hex_text_injective(sha256(encode_utf8(a))@, sha256(encode_utf8(b))@);
    }
    lemma_digests_differ_between_subsets(
        texts_hashed_for(first),
        texts_hashed_for(second),
        texts_hashed_above(first_leaves),
        texts_hashed_above(second_leaves),
    );
    lemma_levels_sensitive(first_leaves, second_leaves);
}

/// A change of any field of any one transaction changes the root, unless two
/// different texts hashed on the way to the two roots share a SHA-256 digest.
pub proof fn lemma_root_changes_with_any_field(
    transactions: Seq<TransactionView>,
    i: int,
    changed: TransactionView,
)
    requires
        0 <= i < transactions.len(),
        changed.sender != transactions[i].sender || changed.recipient != transactions[i].recipient
            || changed.amount != transactions[i].amount,
        digests_differ_between(
            texts_hashed_for(transactions),
            texts_hashed_for(transactions.update(i, changed)),
        ),
    ensures
        merkle_root(transactions.update(i, changed)) != merkle_root(transactions),
{
    lemma_root_sensitive(transactions, transactions.update(i, changed));
}

} // verus!
