use handheld_core::save::{
    bank_file_name, cut_to, remove_spaces, save_directory_name, save_with_retries, RetryStep,
    SaveRamStore, SaveRetry, SAVE_ATTEMPTS,
};
use std::cell::Cell;

#[test]
fn directory_name_is_lowercase_without_spaces_and_cut() {
    assert_eq!(save_directory_name("POKEMON RED"), "pokemonr");
    assert_eq!(save_directory_name("Zelda"), "zelda");
    assert_eq!(save_directory_name("  A b  C "), "abc");
    assert_eq!(save_directory_name(""), "");
    assert_eq!(save_directory_name("12345678"), "12345678");
    assert_eq!(save_directory_name("123456789"), "12345678");
}

#[test]
fn directory_name_counts_characters() {
    assert_eq!(save_directory_name("ÄÖÜ ÄÖÜ ÄÖÜ"), "äöüäöüäö");
}

#[test]
fn helpers_of_the_directory_name() {
    assert_eq!(remove_spaces(" a  b c"), "abc");
    assert_eq!(remove_spaces("abc"), "abc");
    assert_eq!(cut_to(String::from("abcdef"), 3), "abc");
    assert_eq!(cut_to(String::from("ab"), 3), "ab");
    assert_eq!(cut_to(String::from("abc"), 0), "");
}

#[test]
fn bank_file_name_is_decimal() {
    assert_eq!(bank_file_name(0), "0");
    assert_eq!(bank_file_name(7), "7");
    assert_eq!(bank_file_name(10), "10");
    assert_eq!(bank_file_name(255), "255");
}

#[test]
fn save_then_load_round_trip() {
    let mut store = SaveRamStore::new();
    let data: Vec<u8> = (0..64u32).map(|x| (x * 3 % 256) as u8).collect();
    store.save("Pokemon Red", 2, &data);
    let mut buf = vec![0u8; 64];
    store.load_to_bank("Pokemon Red", 2, &mut buf);
    assert_eq!(buf, data);
}

#[test]
fn load_of_unsaved_bank_leaves_buffer() {
    let mut store = SaveRamStore::new();
    store.save("Zelda", 1, &[1, 2, 3]);
    let mut buf = vec![0u8; 8];
    store.load_to_bank("Zelda", 0, &mut buf);
    assert_eq!(buf, vec![0u8; 8]);
    store.load_to_bank("Tetris", 1, &mut buf);
    assert_eq!(buf, vec![0u8; 8]);
}

#[test]
fn save_replaces_and_keeps_other_banks() {
    let mut store = SaveRamStore::new();
    store.save("Zelda", 0, &[1, 1]);
    store.save("Zelda", 1, &[2, 2]);
    store.save("Mario", 0, &[3, 3]);
    store.save("Zelda", 0, &[4, 4]);
    let mut buf = vec![0u8; 2];
    store.load_to_bank("Zelda", 0, &mut buf);
    assert_eq!(buf, vec![4, 4]);
    store.load_to_bank("Zelda", 1, &mut buf);
    assert_eq!(buf, vec![2, 2]);
    store.load_to_bank("Mario", 0, &mut buf);
    assert_eq!(buf, vec![3, 3]);
}

#[test]
fn titles_with_the_same_directory_share_their_banks() {
    let mut store = SaveRamStore::new();
    store.save("POKEMON RED", 0, &[9]);
    let mut buf = vec![0u8; 1];
    store.load_to_bank("pokemon r", 0, &mut buf);
    assert_eq!(buf, vec![9]);
}

#[test]
fn load_fills_as_far_as_the_buffer_or_the_data_reaches() {
    let mut store = SaveRamStore::new();
    store.save("G", 0, &[1, 2, 3, 4]);
    let mut short = vec![0u8; 2];
    store.load_to_bank("G", 0, &mut short);
    assert_eq!(short, vec![1, 2]);
    let mut long = vec![7u8; 6];
    store.load_to_bank("G", 0, &mut long);
    assert_eq!(long, vec![1, 2, 3, 4, 7, 7]);
}

#[test]
fn retry_counts_to_four() {
    assert_eq!(SAVE_ATTEMPTS, 4);
    let mut retry = SaveRetry::new();
    assert_eq!(retry.after_attempt(false), RetryStep::Again);
    assert_eq!(retry.after_attempt(false), RetryStep::Again);
    assert_eq!(retry.after_attempt(false), RetryStep::Again);
    assert_eq!(retry.after_attempt(false), RetryStep::Fatal);
}

#[test]
fn retry_finishes_on_success() {
    let mut retry = SaveRetry::with_limit(2);
    assert_eq!(retry.after_attempt(false), RetryStep::Again);
    assert_eq!(retry.after_attempt(true), RetryStep::Finished);
    let mut once = SaveRetry::with_limit(1);
    assert_eq!(once.after_attempt(false), RetryStep::Fatal);
    assert_eq!(once.after_attempt(false), RetryStep::Fatal);
    assert_eq!(once.after_attempt(true), RetryStep::Finished);
    let mut never = SaveRetry::with_limit(0);
    assert_eq!(never.after_attempt(false), RetryStep::Fatal);
}

#[test]
fn save_with_retries_stops_at_first_success() {
    let calls = Cell::new(0u32);
    let result = save_with_retries(
        || {
            calls.set(calls.get() + 1);
            if calls.get() < 3 {
                Err("busy")
            } else {
                Ok(())
            }
        },
        4,
    );
    assert_eq!(result, Ok(3));
    assert_eq!(calls.get(), 3);
}

#[test]
fn save_with_retries_gives_up_after_the_limit() {
    let calls = Cell::new(0u32);
    let result = save_with_retries(
        || {
            calls.set(calls.get() + 1);
            Err::<(), u32>(calls.get())
        },
        4,
    );
    assert_eq!(result, Err(4));
    assert_eq!(calls.get(), 4);
}
