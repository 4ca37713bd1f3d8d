use game_server::table::Table;
use game_server::model::User;
use game_server::model::UserId;

fn user(c: u128, u: u64) -> User {
    User { conn_id: c, user_id: UserId::Id(u) }
}

#[test]
fn a_table_keeps_one_value_per_key_and_its_order() {
    let mut t: Table<u128, User> = Table::new();
    assert_eq!(t.len(), 0);
    assert!(t.get(&1).is_none());
    t.insert(1, user(1, 10));
    t.insert(2, user(2, 20));
    t.insert(1, user(1, 11));
    assert_eq!(t.len(), 2);
    assert_eq!(t.get(&1), Some(&user(1, 11)));
    assert_eq!((*t.key_at(0), *t.key_at(1)), (1, 2));
    assert_eq!(t.position(&2), Some(1));
    if let Some(u) = t.get_mut(&2) {
        u.user_id = UserId::Empty;
    }
    assert_eq!(t.value_at(1).user_id, UserId::Empty);
    assert!(t.get_mut(&3).is_none());
    t.remove(&1);
    t.remove(&3);
    assert_eq!(t.len(), 1);
    assert!(t.get(&1).is_none());
    assert_eq!(*t.key_at(0), 2);
}
