use handheld_core::cache::{BankCache, BANK_SIZE};
use handheld_core::rom::{copy_bank, BankedRomStore};

fn image(banks: usize) -> Vec<u8> {
    let mut rom = Vec::with_capacity(banks * BANK_SIZE);
    for bank in 0..banks {
        for offset in 0..BANK_SIZE {
            rom.push(((bank * 31 + offset * 7 + offset / 256) % 251) as u8);
        }
    }
    rom
}

#[test]
fn capacity_three_cache_keeps_three_most_recent() {
    let rom = image(5);
    let mut store = BankedRomStore::new(copy_bank(&rom, 0), 3);
    for bank in [1usize, 2, 3, 1, 4] {
        let byte = store.read_byte(&rom, bank, 17);
        assert_eq!(byte, rom[bank * BANK_SIZE + 17]);
    }
    assert_eq!(store.cached_banks(), vec![4, 1, 3]);
    assert!(!store.cached_banks().contains(&2));
}

#[test]
fn cache_reports_the_evicted_bank() {
    let mut cache = BankCache::new(3);
    assert_eq!(cache.capacity(), 3);
    assert_eq!(cache.insert(1, vec![1; BANK_SIZE]), None);
    assert_eq!(cache.insert(2, vec![2; BANK_SIZE]), None);
    assert_eq!(cache.insert(3, vec![3; BANK_SIZE]), None);
    assert_eq!(cache.len(), 3);
    assert_eq!(cache.get(1, 0), Some(1));
    assert_eq!(cache.insert(4, vec![4; BANK_SIZE]), Some(2));
    assert_eq!(cache.len(), 3);
    assert_eq!(cache.cached_banks(), vec![4, 1, 3]);
    assert_eq!(cache.get(2, 0), None);
    assert_eq!(cache.get(3, 5), Some(3));
    assert_eq!(cache.cached_banks(), vec![3, 4, 1]);
}

#[test]
fn reaccess_updates_recency_without_eviction() {
    let mut cache = BankCache::new(2);
    cache.insert(7, vec![7; BANK_SIZE]);
    cache.insert(8, vec![8; BANK_SIZE]);
    assert_eq!(cache.get(7, 100), Some(7));
    assert_eq!(cache.len(), 2);
    assert_eq!(cache.cached_banks(), vec![7, 8]);
    assert_eq!(cache.insert(9, vec![9; BANK_SIZE]), Some(8));
    assert_eq!(cache.cached_banks(), vec![9, 7]);
}

#[test]
fn insert_of_cached_bank_replaces_its_bytes() {
    let mut cache = BankCache::new(2);
    cache.insert(5, vec![1; BANK_SIZE]);
    cache.insert(6, vec![2; BANK_SIZE]);
    assert_eq!(cache.insert(5, vec![3; BANK_SIZE]), None);
    assert_eq!(cache.cached_banks(), vec![5, 6]);
    assert_eq!(cache.get(5, 9), Some(3));
    assert_eq!(cache.get(6, 9), Some(2));
}

#[test]
fn full_size_cache_evicts_in_order() {
    let mut cache = BankCache::new(10);
    for bank in 1..=10usize {
        assert_eq!(cache.insert(bank, vec![bank as u8; BANK_SIZE]), None);
    }
    assert_eq!(cache.insert(11, vec![11; BANK_SIZE]), Some(1));
    assert_eq!(cache.insert(12, vec![12; BANK_SIZE]), Some(2));
    assert_eq!(cache.cached_banks(), vec![12, 11, 10, 9, 8, 7, 6, 5, 4, 3]);
    for bank in 3..=12usize {
        assert_eq!(cache.get(bank, 1), Some(bank as u8));
    }
}

#[test]
fn capacity_one_cache_holds_last_bank() {
    let mut cache = BankCache::new(1);
    assert_eq!(cache.insert(3, vec![3; BANK_SIZE]), None);
    assert_eq!(cache.insert(4, vec![4; BANK_SIZE]), Some(3));
    assert_eq!(cache.cached_banks(), vec![4]);
    assert_eq!(cache.get(4, BANK_SIZE - 1), Some(4));
}

#[test]
fn bank_zero_reads_leave_cache_alone() {
    let rom = image(4);
    let mut store = BankedRomStore::new(copy_bank(&rom, 0), 3);
    store.read_byte(&rom, 2, 0);
    store.read_byte(&rom, 3, 0);
    let before = store.cached_banks();
    for offset in [0usize, 1, 255, BANK_SIZE - 1] {
        assert_eq!(store.read_byte(&rom, 0, offset), rom[offset]);
        assert_eq!(store.read_cached(0, offset), Some(rom[offset]));
    }
    assert_eq!(store.cached_banks(), before);
    assert_eq!(before, vec![3, 2]);
}

#[test]
fn miss_then_install_then_hit() {
    let rom = image(3);
    let mut store = BankedRomStore::new(copy_bank(&rom, 0), 3);
    assert_eq!(store.read_cached(2, 40), None);
    assert_eq!(store.cached_banks(), Vec::<usize>::new());
    assert_eq!(store.install(2, copy_bank(&rom, 2)), None);
    assert_eq!(store.read_cached(2, 40), Some(rom[2 * BANK_SIZE + 40]));
}

#[test]
fn read_byte_matches_image_everywhere() {
    let rom = image(6);
    let mut store = BankedRomStore::new(copy_bank(&rom, 0), 3);
    let mut state = 12345usize;
    for _ in 0..2000 {
        state = state.wrapping_mul(1103515245).wrapping_add(12345) % (1 << 31);
        let bank = (state >> 8) % 6;
        let offset = (state >> 3) % BANK_SIZE;
        assert_eq!(store.read_byte(&rom, bank, offset), rom[bank * BANK_SIZE + offset]);
        assert!(store.cached_banks().len() <= 3);
    }
}

#[test]
fn copy_bank_takes_the_right_range() {
    let rom = image(3);
    let bank = copy_bank(&rom, 1);
    assert_eq!(bank.len(), BANK_SIZE);
    assert_eq!(&bank[..], &rom[BANK_SIZE..2 * BANK_SIZE]);
}
