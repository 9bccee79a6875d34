use range_sum::decimal::decimal;
use range_sum::numeric::{do_sum, is_even, largest};
use range_sum::shapes::Rect;
use range_sum::summary::{
    fix_offer, notification, notify, notify_fix, DefaultUser, Fix, Summary, User,
};
use range_sum::text::{find_first_a, first_word, get_first_word, longest, update_str};

struct Gadget;

impl Fix for Gadget {}

#[test]
fn evenness() {
    assert!(!is_even(99));
    assert!(is_even(0));
    assert!(is_even(-4));
    assert!(!is_even(-3));
    assert!(is_even(i32::MIN));
    assert!(!is_even(i32::MAX));
}

#[test]
fn sum_of_two() {
    assert_eq!(do_sum(5, 10), 15);
    assert_eq!(do_sum(-7, 7), 0);
    assert_eq!(do_sum(i32::MAX, i32::MIN), -1);
}

#[test]
fn largest_of_two() {
    assert_eq!(largest(1, 2), 2);
    assert_eq!(largest(2, 1), 2);
    assert_eq!(largest('a', 'b'), 'b');
    assert_eq!(largest("pear", "apple"), "pear");
    assert_eq!(largest(f64::NAN, 1.0), 1.0);
    assert!(largest(1.0, f64::NAN).is_nan());
}

#[test]
fn first_a_is_found_by_character_index() {
    assert_eq!(find_first_a(String::from("raman")), Some(1));
    assert_eq!(find_first_a(String::from("a")), Some(0));
    assert_eq!(find_first_a(String::from("xyz")), None);
    assert_eq!(find_first_a(String::new()), None);
    assert_eq!(find_first_a(String::from("ééa")), Some(2));
    assert_eq!(find_first_a(String::from("BANANA")), None);
}

#[test]
fn first_word_ends_before_the_capital_w() {
    assert_eq!(first_word(&String::from("Hello World")), "Hello ");
    assert_eq!(first_word(&String::from("World")), "");
    assert_eq!(first_word(&String::from("no such letter")), "no such letter");
    assert_eq!(first_word(&String::new()), "");
    assert_eq!(first_word(&String::from("oneWtwoWthree")), "one");
}

#[test]
fn first_word_of_a_sentence_keeps_its_space() {
    assert_eq!(get_first_word(String::from("My Name is Curator")), "My ");
    assert_eq!(get_first_word(String::from("Single")), "Single");
    assert_eq!(get_first_word(String::new()), "");
    assert_eq!(get_first_word(String::from(" lead")), " ");
    assert_eq!(get_first_word(String::from("héllo wörld")), "héllo ");
}

#[test]
fn longer_string_by_bytes() {
    assert_eq!(longest("small", "longer"), "longer");
    assert_eq!(longest("longer", "small"), "longer");
    assert_eq!(longest("left", "west"), "west");
    assert_eq!(longest("é", "ab"), "ab");
    assert_eq!(longest("éé", "abc"), "éé");
}

#[test]
fn world_is_appended() {
    let mut s = String::from("Hello");
    update_str(&mut s);
    assert_eq!(s, "Hello World");
    update_str(&mut s);
    assert_eq!(s, "Hello World World");
}

#[test]
fn rectangle_measures() {
    let rect = Rect { width: 30, height: 50 };
    assert_eq!(rect.area(), 1500);
    assert_eq!(rect.perimeter(), 160);
    let flat = Rect { width: 0, height: 9 };
    assert_eq!(flat.area(), 0);
    assert_eq!(flat.perimeter(), 18);
    let wide = Rect { width: 65535, height: 65537 };
    assert_eq!(wide.area(), u32::MAX);
}

#[test]
fn decimal_digits() {
    assert_eq!(decimal(0), "0");
    assert_eq!(decimal(7), "7");
    assert_eq!(decimal(10), "10");
    assert_eq!(decimal(30), "30");
    assert_eq!(decimal(1005), "1005");
    assert_eq!(decimal(u32::MAX), "4294967295");
    for n in 0u32..2000 {
        assert_eq!(decimal(n), format!("{}", n));
    }
}

#[test]
fn user_sums_itself_up() {
    let user = User { name: String::from("Curator"), age: 30 };
    assert_eq!(user.summarize(), "Curator is 30 years old");
    assert_eq!(user.fix(), "Fixing user: Curator");
    let newborn = User { name: String::new(), age: 0 };
    assert_eq!(newborn.summarize(), " is 0 years old");
}

#[test]
fn defaults_say_that_nothing_is_available() {
    assert_eq!(DefaultUser {}.summarize(), "No summary available");
    assert_eq!(Gadget.fix(), "No fix available");
}

#[test]
fn notifications() {
    let user = User { name: String::from("Curator"), age: 30 };
    assert_eq!(notification("ready"), "New notification: ready");
    assert_eq!(fix_offer("restart"), "Fix available: restart");
    assert_eq!(notify(&user), "New notification: Curator is 30 years old");
    assert_eq!(notify(&DefaultUser {}), "New notification: No summary available");
    let lines = notify_fix(user);
    assert_eq!(lines.0, "New notification: Curator is 30 years old");
    assert_eq!(lines.1, "Fix available: Fixing user: Curator");
}
