use solana_pam::{user_access_list_add_pk, user_access_list_remove_pk, Identity};

fn key(b: u8) -> Identity {
    [b; 32]
}

#[test]
fn add_to_empty_gives_single_key() {
    assert_eq!(user_access_list_add_pk(Vec::new(), key(1)), vec![key(1)]);
}

#[test]
fn add_appends_absent_key_at_end() {
    let l = vec![key(2), key(1)];
    assert_eq!(user_access_list_add_pk(l, key(3)), vec![key(2), key(1), key(3)]);
}

#[test]
fn add_present_key_leaves_list_unchanged() {
    let l = vec![key(2), key(1)];
    assert_eq!(user_access_list_add_pk(l.clone(), key(1)), l);
}

#[test]
fn add_twice_is_add_once() {
    let once = user_access_list_add_pk(vec![key(4)], key(5));
    let twice = user_access_list_add_pk(once.clone(), key(5));
    assert_eq!(once, twice);
    assert_eq!(twice, vec![key(4), key(5)]);
}

#[test]
fn add_keeps_list_free_of_duplicates() {
    let mut l = Vec::new();
    for b in [1u8, 2, 1, 3, 2, 3] {
        l = user_access_list_add_pk(l, key(b));
    }
    assert_eq!(l, vec![key(1), key(2), key(3)]);
}

#[test]
fn remove_from_empty_is_empty() {
    assert_eq!(user_access_list_remove_pk(Vec::new(), key(1)), Vec::<Identity>::new());
}

#[test]
fn remove_keeps_order_of_the_rest() {
    let l = vec![key(1), key(2), key(3)];
    assert_eq!(user_access_list_remove_pk(l, key(2)), vec![key(1), key(3)]);
}

#[test]
fn remove_absent_key_leaves_list_unchanged() {
    let l = vec![key(1), key(2)];
    assert_eq!(user_access_list_remove_pk(l.clone(), key(9)), l);
}

#[test]
fn remove_twice_is_remove_once() {
    let once = user_access_list_remove_pk(vec![key(1), key(2)], key(1));
    let twice = user_access_list_remove_pk(once.clone(), key(1));
    assert_eq!(once, twice);
    assert_eq!(twice, vec![key(2)]);
}

#[test]
fn remove_takes_only_first_occurrence() {
    let l = vec![key(1), key(2), key(1)];
    assert_eq!(user_access_list_remove_pk(l, key(1)), vec![key(2), key(1)]);
}
