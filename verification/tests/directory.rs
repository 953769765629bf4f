use shaken::message::Rgb;
use shaken::user::{names_agree, User, UserStore};

fn color(text: &str) -> Rgb {
    Rgb::parse(text).unwrap()
}

#[test]
fn test_get_user() {
    let mut store = UserStore::new();

    let user = store.get_user_by_id(1004);
    assert_eq!(user, None);

    store.create_user(&User {
        display: "Test".into(),
        color: color("#f0f0f0"),
        userid: 1004,
    });

    let user = store.get_user_by_id(1004);
    assert_eq!(
        user,
        Some(User {
            display: "Test".into(),
            color: color("#f0f0f0"),
            userid: 1004,
        })
    );

    let user = store.get_user_by_name("test");
    assert_eq!(
        user,
        Some(User {
            display: "Test".into(),
            color: color("#f0f0f0"),
            userid: 1004,
        })
    );

    let user = store.get_user_by_name("TEST");
    assert_eq!(
        user,
        Some(User {
            display: "Test".into(),
            color: color("#f0f0f0"),
            userid: 1004,
        })
    );

    let user = store.get_user_by_name("not_test");
    assert_eq!(user, None);
}

#[test]
fn creating_a_user_twice_keeps_the_first_record() {
    let mut store = UserStore::new();
    store.create_user(&User {
        display: "Test".into(),
        color: color("#f0f0f0"),
        userid: 1004,
    });
    store.create_user(&User {
        display: "Other".into(),
        color: color("#000000"),
        userid: 1004,
    });
    assert_eq!(store.len(), 1);
    assert_eq!(
        store.get_user_by_id(1004),
        Some(User {
            display: "Test".into(),
            color: Rgb::new(0xf0, 0xf0, 0xf0),
            userid: 1004,
        })
    );
    assert_eq!(store.get_user_by_name("other"), None);
}

#[test]
fn users_with_other_ids_are_added() {
    let mut store = UserStore::new();
    store.create_user(&User { display: "a".into(), color: Rgb::new(1, 2, 3), userid: 1 });
    store.create_user(&User { display: "A".into(), color: Rgb::new(4, 5, 6), userid: 2 });
    assert_eq!(store.len(), 2);
    // the earliest record answers to the name
    assert_eq!(store.get_user_by_name("A").unwrap().userid, 1);
    assert_eq!(store.get_bot("a").unwrap().userid, 1);
    assert_eq!(store.get_user_by_id(2).unwrap().color, Rgb::new(4, 5, 6));
    assert_eq!(store.get_user_by_id(3), None);
}

#[test]
fn names_agree_but_for_ascii_case() {
    assert!(names_agree("Test", "tEST"));
    assert!(names_agree("", ""));
    assert!(!names_agree("Test", "Tes"));
    assert!(!names_agree("Test", "Tesu"));
    // '@' and '`' differ by 32 but are no letters
    assert!(!names_agree("@", "`"));
    assert!(!names_agree("[", "{"));
}

#[test]
fn colours_are_read_from_hex_digits() {
    assert_eq!(Rgb::parse("#f0f0f0"), Some(Rgb::new(240, 240, 240)));
    assert_eq!(Rgb::parse("fc0fc0"), Some(Rgb::new(0xfc, 0x0f, 0xc0)));
    assert_eq!(Rgb::parse("#FC0Fc0"), Some(Rgb::bot_default()));
    assert_eq!(Rgb::parse("#12345"), None);
    assert_eq!(Rgb::parse("#1234567"), None);
    assert_eq!(Rgb::parse("#12345g"), None);
    assert_eq!(Rgb::parse(""), None);
    assert_eq!(Rgb::parse("#"), None);
    assert_eq!(Rgb::parse("0a0b0c"), Some(Rgb::new(10, 11, 12)));
}
