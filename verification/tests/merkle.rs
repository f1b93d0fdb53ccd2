use blockchain::chain::Chain;
use blockchain::digest::zero_hash_text;
use blockchain::record::Transaction;

fn transfer(sender: &str, recipient: &str, amount: i64) -> Transaction {
    Transaction { sender: sender.to_string(), recipient: recipient.to_string(), amount }
}

fn parent(left: &str, right: &str) -> String {
    Chain::hash(&format!("{}{}", left, right))
}

#[test]
fn sentinel_is_64_zeros() {
    assert_eq!(zero_hash_text(), "0".repeat(64));
}

#[test]
fn root_of_no_transactions_is_the_sentinel() {
    assert_eq!(Chain::get_merkle_root(&[]), "0".repeat(64));
}

#[test]
fn root_of_one_transaction_pairs_its_hash_with_itself() {
    let reward = transfer("", "M", 10);
    let leaf = Chain::hash(&reward);
    assert_eq!(Chain::get_merkle_root(&[reward]), parent(&leaf, &leaf));
}

#[test]
fn root_of_one_transaction_has_the_known_value() {
    assert_eq!(
        Chain::get_merkle_root(&[transfer("", "M", 10)]),
        "85d6a56566ad9de487829bf78b32336360ec10dbc6edcae0352943b34b8c2205"
    );
}

#[test]
fn root_of_two_transactions_is_the_hash_of_their_pair() {
    let list = [transfer("", "M", 10), transfer("A", "B", 5)];
    let left = Chain::hash(&list[0]);
    let right = Chain::hash(&list[1]);
    let root = Chain::get_merkle_root(&list);
    assert_eq!(root, parent(&left, &right));
    assert_eq!(root, "5ce4bf56dce8e22e21615ba8f851749569d0f8b88383f22255d2b33a0ecf1611");
}

#[test]
fn root_of_three_transactions_repeats_the_last_leaf() {
    let list = [transfer("", "M", 10), transfer("A", "B", 5), transfer("C", "D", -7)];
    let leaf_a = Chain::hash(&list[0]);
    let leaf_b = Chain::hash(&list[1]);
    let leaf_c = Chain::hash(&list[2]);
    let root = Chain::get_merkle_root(&list);
    assert_eq!(root, parent(&parent(&leaf_a, &leaf_b), &parent(&leaf_c, &leaf_c)));
    assert_eq!(root, "d41f641192a565f8d04d88ba0603979a63aa5475d03cc72b979d08cbac6a375d");
}

#[test]
fn root_of_four_transactions_pairs_from_the_left() {
    let list = [transfer("a", "b", 1), transfer("c", "d", 2), transfer("e", "f", 3), transfer("g", "h", 4)];
    let l: Vec<String> = list.iter().map(|t| Chain::hash(t)).collect();
    assert_eq!(
        Chain::get_merkle_root(&list),
        parent(&parent(&l[0], &l[1]), &parent(&l[2], &l[3]))
    );
}

#[test]
fn root_of_five_transactions_pads_every_odd_level() {
    let list = [
        transfer("a", "b", 1),
        transfer("c", "d", 2),
        transfer("e", "f", 3),
        transfer("g", "h", 4),
        transfer("i", "j", 5),
    ];
    let l: Vec<String> = list.iter().map(|t| Chain::hash(t)).collect();
    let first = parent(&l[0], &l[1]);
    let second = parent(&l[2], &l[3]);
    let third = parent(&l[4], &l[4]);
    assert_eq!(Chain::get_merkle_root(&list), parent(&parent(&first, &second), &parent(&third, &third)));
}

#[test]
fn root_of_six_transactions_pads_the_level_of_three() {
    let list = [
        transfer("a", "b", 1),
        transfer("c", "d", 2),
        transfer("e", "f", 3),
        transfer("g", "h", 4),
        transfer("i", "j", 5),
        transfer("k", "l", 6),
    ];
    let l: Vec<String> = list.iter().map(|t| Chain::hash(t)).collect();
    let first = parent(&l[0], &l[1]);
    let second = parent(&l[2], &l[3]);
    let third = parent(&l[4], &l[5]);
    assert_eq!(Chain::get_merkle_root(&list), parent(&parent(&first, &second), &parent(&third, &third)));
}

#[test]
fn root_is_the_same_when_built_twice() {
    let list = [transfer("", "M", 10), transfer("A", "B", 5), transfer("C", "D", -7)];
    let first = Chain::get_merkle_root(&list);
    let second = Chain::get_merkle_root(&list);
    assert_eq!(first, second);
    let copy = [transfer("", "M", 10), transfer("A", "B", 5), transfer("C", "D", -7)];
    assert_eq!(Chain::get_merkle_root(&copy), first);
}

#[test]
fn root_changes_with_each_field_of_each_transaction() {
    let root = Chain::get_merkle_root(&[transfer("", "M", 10), transfer("A", "B", 5), transfer("C", "D", 7)]);
    for i in 0..3 {
        for field in 0..3 {
            let mut list = [transfer("", "M", 10), transfer("A", "B", 5), transfer("C", "D", 7)];
            match field {
                0 => list[i].sender.push('x'),
                1 => list[i].recipient.push('x'),
                _ => list[i].amount += 1,
            }
            assert_ne!(Chain::get_merkle_root(&list), root);
        }
    }
}

#[test]
fn root_depends_on_the_order_of_the_transactions() {
    let forward = [transfer("A", "B", 5), transfer("C", "D", 7)];
    let backward = [transfer("C", "D", 7), transfer("A", "B", 5)];
    assert_ne!(Chain::get_merkle_root(&forward), Chain::get_merkle_root(&backward));
}

#[test]
fn root_has_64_hexadecimal_digits() {
    let root = Chain::get_merkle_root(&[transfer("A", "B", 5)]);
    assert_eq!(root.len(), 64);
    assert!(root.chars().all(|c| c.is_ascii_digit() || ('a'..='f').contains(&c)));
}
