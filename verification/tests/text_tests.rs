use rusty_rogues::constants::{
    create_agility_option, create_constitution_option, create_damage_message,
    create_log_message, create_radius_message, create_stength_option,
};
use rusty_rogues::text::decimal_text;

#[test]
fn decimal_text_of_zero() {
    assert_eq!(decimal_text(0), "0");
}

#[test]
fn decimal_text_of_positive_numbers() {
    assert_eq!(decimal_text(7), "7");
    assert_eq!(decimal_text(10), "10");
    assert_eq!(decimal_text(1234567890), "1234567890");
}

#[test]
fn decimal_text_of_negative_numbers() {
    assert_eq!(decimal_text(-1), "-1");
    assert_eq!(decimal_text(-405), "-405");
}

#[test]
fn decimal_text_of_the_extremes() {
    assert_eq!(decimal_text(i64::MAX), "9223372036854775807");
    assert_eq!(decimal_text(i64::MIN), "-9223372036854775808");
}

#[test]
fn level_up_log_message() {
    assert_eq!(
        create_log_message(2),
        "Your battle skills grow stronger! You reached level 2"
    );
}

#[test]
fn level_up_options() {
    assert_eq!(create_constitution_option(100), "Constitution (+20 HP, from 100)");
    assert_eq!(create_stength_option(2), "Strength (+1 attack, from 2)");
    assert_eq!(create_agility_option(-1), "Agility (+1 defense, from -1)");
}

#[test]
fn fireball_messages() {
    assert_eq!(
        create_radius_message(),
        "The fireball explodes, burning everything within 3 tiles!"
    );
    assert_eq!(
        create_damage_message(&String::from("Orc")),
        "The Orc gets burned for 25 hit points."
    );
}
