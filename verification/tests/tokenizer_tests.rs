//! Word extraction and keyword matching, exercised exactly as the server's
//! dispatcher uses them.

use chat_relay::MAX_CLIENTS;
use chat_relay::commands::check_command;
use chat_relay::commands::check_join_u8;
use chat_relay::commands::check_leave;
use chat_relay::commands::check_version;
use chat_relay::commands::check_who;
use chat_relay::tokenizer::first_2_words;
use chat_relay::tokenizer::first_word;
use chat_relay::tokenizer::first_word_u8;
use chat_relay::tokenizer::second_word_u8;

#[test]
fn verify_command() {
    assert!(check_command("Hello", "Hello World!"));
}

#[test]
fn verify_join_u8() {
    assert!(check_join_u8(String::from("  JOIN Alice").as_bytes()));
}

#[test]
fn verify_check_who() {
    assert_eq!(check_who("WHO"), true);
}

#[test]
fn it_works() {
    assert_eq!(2 + 2, 4);
}

#[test]
fn verify_max_clients() {
    // the client table design assumes a small fixed capacity; the
    // configured value must stay below 32
    assert!(MAX_CLIENTS < 32);
}

#[test]
fn verify_first_word() {
    let my_string = String::from("Hello World!");
    let word = first_word(&my_string);
    assert_eq!("Hello", word);
}

#[test]
fn verify_first_word_with_initial_space() {
    let my_string = String::from("    Hello World!");
    let word = first_word(&my_string);
    assert_eq!("Hello", word);
}

#[test]
fn verify_first_word_with_initial_tab() {
    let my_string = String::from("\tHello World!");
    let word = first_word(&my_string);
    assert_eq!("Hello", word);
}

#[test]
fn verify_first_2_words_with_initial_space() {
    let my_string = String::from("    Hello    World!");
    let (word1, word2) = first_2_words(&my_string);
    assert_eq!(Some("Hello"), word1);
    assert_eq!(Some("World!"), word2);
}

#[test]
fn verify_first_2_words_with_initial_space_2() {
    let my_string = String::from("\tHello\tWorld!");
    let (word1, word2) = first_2_words(&my_string);
    assert_eq!(Some("Hello"), word1);
    assert_eq!(Some("World!"), word2);
}

#[test]
fn verify_first_2_words_with_initial_space_3() {
    let my_string = String::from(" \t Hello \t World!");
    let (word1, word2) = first_2_words(&my_string);
    assert_eq!(Some("Hello"), word1);
    assert_eq!(Some("World!"), word2);
}

#[test]
fn first_word_u8_plain() {
    assert_eq!(first_word_u8(b"WHO\nrest"), &b"WHO"[..]);
    assert_eq!(first_word_u8(b"  LEAVE now"), &b"LEAVE"[..]);
}

#[test]
fn first_word_u8_all_whitespace_is_empty() {
    assert_eq!(first_word_u8(b" \t\r\n"), &b""[..]);
    assert_eq!(first_word_u8(b""), &b""[..]);
}

#[test]
fn first_word_keeps_whole_input_without_trailing_delimiter() {
    // the extraction hands back the whole input, leading whitespace
    // included, when the word runs to the end of the buffer — deliberate
    // wire-visible behaviour (see the tokenizer's contract)
    assert_eq!(first_word_u8(b"  WHO"), &b"  WHO"[..]);
    assert_eq!(first_word("  Hello"), "  Hello");
}

#[test]
fn first_2_words_missing_second_word() {
    let (word1, word2) = first_2_words("JOIN   ");
    assert_eq!(Some("JOIN"), word1);
    assert_eq!(None, word2);
    let (word1, word2) = first_2_words("   ");
    assert_eq!(None, word1);
    assert_eq!(None, word2);
}

#[test]
fn second_word_u8_extracts_join_name() {
    assert_eq!(second_word_u8(b"JOIN Alice\n"), Some(&b"Alice"[..]));
    assert_eq!(second_word_u8(b"  JOIN \t Bob rest"), Some(&b"Bob"[..]));
    assert_eq!(second_word_u8(b"JOIN\n"), None);
    assert_eq!(second_word_u8(b""), None);
}

#[test]
fn keyword_checks_are_case_sensitive_and_exact() {
    assert!(check_leave("LEAVE"));
    assert!(check_version("VERSION\n"));
    assert!(!check_who("who"));
    assert!(!check_leave("LEAVES"));
    assert!(!check_version("VERSIO"));
    assert!(!check_join_u8(b"join Alice"));
}
