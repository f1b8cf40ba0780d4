use pow_chain::block::Block;
use pow_chain::digest::digest_meets_difficulty;
use pow_chain::error::Error;
use pow_chain::mining::{search_bound_of, Collector, MiningTask, Verdict, CHUNKS};
use pow_chain::queue::Task;

fn hex_of(bytes: &[u8]) -> String {
    let mut text = String::new();
    for b in bytes {
        text.push_str(&format!("{:02x}", b));
    }
    text
}

// Runs the tasks of a search one after the other, as a pool of one worker
// would, and judges each report as it arrives.
fn mine_range(block: &Block, start: u64, end: u64, chunks: u64) -> Result<u64, Error> {
    let tasks = block.search_tasks(start, end, chunks);
    let mut collector = Collector::new(chunks);
    for task in tasks.iter() {
        match collector.observe(block, task.run()) {
            Verdict::Found(p) => return Ok(p),
            Verdict::Exhausted => return Err(Error::ExhaustedSearch),
            Verdict::Pending => {}
        }
    }
    Err(Error::ExhaustedSearch)
}

fn mine(block: &mut Block) {
    let (start, end, chunks) = block.search_plan();
    let proof = mine_range(block, start, end, chunks).unwrap();
    block.set_proof(proof);
}

#[test]
fn example() {
    // Create blocks
    let mut b0 = Block::initial(19);
    b0.set_proof(87745);
    let mut b1 = Block::next(&b0, String::from("hash example 1234")).unwrap();
    b1.set_proof(1407891);

    // Test for valid proof
    let mut res = b0.is_valid();
    println!("Block b0 is valid proof 87745: {:?}", res);
    res = b1.is_valid();
    println!("Block b1 is valid proof 1407891: {:?}", res);
    b1.set_proof(346082);
    res = b1.is_valid();
    println!("Block b1 is valid proof 346082: {:?}", res);

    // Mining test
    let mut b0 = Block::initial(7);
    mine(&mut b0);
    println!("{}", b0.hash_string().unwrap());
    println!("{}", hex_of(&b0.hash().unwrap()));
    assert!(b0.is_valid());
    let mut b1 = Block::next(&b0, String::from("this is an interesting message")).unwrap();
    mine(&mut b1);
    println!("{}", b1.hash_string().unwrap());
    println!("{}", hex_of(&b1.hash().unwrap()));
    assert!(b1.is_valid());
    let mut b2 = Block::next(&b1, String::from("this is not interesting")).unwrap();
    mine(&mut b2);
    println!("{}", b2.hash_string().unwrap());
    println!("{}", hex_of(&b2.hash().unwrap()));
    assert!(b2.is_valid());

    let mut b2 = Block::initial(20);
    mine(&mut b2);
    println!("{}", b2.hash_string().unwrap());
    println!("{}", hex_of(&b2.hash().unwrap()));
    assert_eq!(b2.current_proof(), Some(582857));
    let mut b3 = Block::next(&b2, String::from("more workers")).unwrap();
    mine(&mut b3);
    println!("{}", b3.hash_string().unwrap());
    println!("{}", hex_of(&b3.hash().unwrap()));
    let b4 = Block::next(&b3, String::from("more difficult")).unwrap();
    println!("{}", b4.hash_string_for_proof(0));
    println!("{}", hex_of(&b4.hash_for_proof(0)));

    let mut b5 = Block::initial(15);
    mine(&mut b5);
    println!("{}", b5.hash_string().unwrap());
    println!("{}", hex_of(&b5.hash().unwrap()));
    let mut b6 = Block::next(&b5, String::from("hello world")).unwrap();
    mine(&mut b6);
    println!("{}", b6.hash_string().unwrap());
    println!("{}", hex_of(&b6.hash().unwrap()));
}

#[test]
fn genesis_block_fields() {
    let b = Block::initial(12);
    assert_eq!(b.prev_hash(), [0u8; 32]);
    assert_eq!(b.generation(), 0);
    assert_eq!(b.difficulty(), 12);
    assert_eq!(b.data(), "");
    assert_eq!(b.current_proof(), None);
    assert!(!b.is_valid());
}

#[test]
fn canonical_text_of_genesis() {
    let b = Block::initial(8);
    assert_eq!(
        b.hash_string_for_proof(120),
        "0000000000000000000000000000000000000000000000000000000000000000:0:8:0::120"
    );
}

#[test]
fn canonical_text_counts_payload_bytes() {
    let mut b0 = Block::initial(7);
    b0.set_proof(171);
    let b1 = Block::next(&b0, String::from("this is an interesting message")).unwrap();
    assert_eq!(
        b1.hash_string_for_proof(209),
        "7912b18320277683eaceff572480ee59cef7233fb7da2611aed32cd100a26180:1:7:30:this is an interesting message:209"
    );
    let b2 = Block::next(&b0, String::from("h\u{e9}llo")).unwrap();
    assert_eq!(
        b2.hash_string_for_proof(42),
        "7912b18320277683eaceff572480ee59cef7233fb7da2611aed32cd100a26180:1:7:6:h\u{e9}llo:42"
    );
}

#[test]
fn payload_with_separators_does_not_collide() {
    let mut b0 = Block::initial(3);
    b0.set_proof(0);
    let a = Block::next(&b0, String::from("a:1")).unwrap();
    let b = Block::next(&b0, String::from("a")).unwrap();
    assert_ne!(a.hash_string_for_proof(5), b.hash_string_for_proof(15));
    assert_ne!(a.hash_for_proof(5), b.hash_for_proof(15));
}

#[test]
fn digest_of_genesis_is_sha256_of_text() {
    let b = Block::initial(8);
    assert_eq!(
        hex_of(&b.hash_for_proof(120)),
        "a492c147f8c3b8ea61c0cae3cc87d0b6eae1899a194e158f5c6a030c48bcff00"
    );
    let b16 = Block::initial(16);
    assert_eq!(
        hex_of(&b16.hash_for_proof(101358)),
        "2bda8c05a71322664ac6de3fe0d9240fe1418924422b10ce74d134aa9e7d0000"
    );
}

#[test]
fn hash_is_repeatable() {
    let mut b0 = Block::initial(5);
    b0.set_proof(9);
    let b1 = Block::next(&b0, String::from("payload")).unwrap();
    let copy = b1.snapshot();
    for p in [0u64, 1, 77, u64::MAX] {
        assert_eq!(b1.hash_for_proof(p), b1.hash_for_proof(p));
        assert_eq!(b1.hash_for_proof(p), copy.hash_for_proof(p));
        assert_eq!(b1.hash_string_for_proof(p), copy.hash_string_for_proof(p));
    }
    assert_ne!(b1.hash_for_proof(0), b1.hash_for_proof(1));
}

#[test]
fn unmined_block_cannot_be_hashed_or_linked() {
    let b = Block::initial(4);
    assert_eq!(b.hash(), Err(Error::NotMined));
    assert_eq!(b.hash_string(), Err(Error::NotMined));
    assert!(matches!(Block::next(&b, String::from("x")), Err(Error::NotMined)));
}

#[test]
fn successor_links_to_predecessor() {
    let mut prev = Block::initial(6);
    assert_eq!(prev.mine_serial(), Ok(()));
    let next = Block::next(&prev, String::from("second")).unwrap();
    assert_eq!(next.prev_hash(), prev.hash().unwrap());
    assert_eq!(next.generation(), prev.generation() + 1);
    assert_eq!(next.difficulty(), 6);
    assert_eq!(next.data(), "second");
    assert_eq!(next.current_proof(), None);
    let mut second = next;
    assert_eq!(second.mine_serial(), Ok(()));
    let third = Block::next(&second, String::from("third")).unwrap();
    assert_eq!(third.generation(), 2);
    assert_eq!(third.prev_hash(), second.hash().unwrap());
}

#[test]
fn serial_mining_of_genesis_at_difficulty_eight() {
    let mut b = Block::initial(8);
    assert_eq!(b.mine_serial(), Ok(()));
    assert_eq!(b.current_proof(), Some(120));
    assert!(b.is_valid());
    assert_eq!(b.hash().unwrap()[31], 0);
    assert!(b.is_valid_for_proof(120));
    assert!(!b.is_valid_for_proof(119));
    assert!(!b.is_valid_for_proof(118));
    assert!(!b.is_valid_for_proof(117));
    for p in 0..120u64 {
        assert!(!b.is_valid_for_proof(p));
    }
}

#[test]
fn serial_mining_gives_a_valid_block() {
    for difficulty in [0u8, 1, 3, 7, 9, 12] {
        let mut b = Block::initial(difficulty);
        assert_eq!(b.mine_serial(), Ok(()));
        assert!(b.is_valid());
        let p = b.current_proof().unwrap();
        assert!(b.is_valid_for_proof(p));
    }
    let mut b12 = Block::initial(12);
    b12.mine_serial().unwrap();
    assert_eq!(b12.current_proof(), Some(2953));
}

#[test]
fn zero_difficulty_accepts_every_proof() {
    let b = Block::initial(0);
    for p in [0u64, 1, 2, 1000, u64::MAX] {
        assert!(b.is_valid_for_proof(p));
    }
    let mut m = Block::initial(0);
    m.mine_serial().unwrap();
    assert_eq!(m.current_proof(), Some(0));
}

#[test]
fn set_proof_decides_validity() {
    let mut b = Block::initial(8);
    b.set_proof(119);
    assert_eq!(b.current_proof(), Some(119));
    assert!(!b.is_valid());
    b.set_proof(120);
    assert!(b.is_valid());
    b.set_proof(168);
    assert!(b.is_valid());
}

#[test]
fn other_candidates_are_mostly_rejected() {
    let b = Block::initial(16);
    assert!(b.is_valid_for_proof(101358));
    for p in 101359..101459u64 {
        assert!(!b.is_valid_for_proof(p));
    }
}

#[test]
fn difficulty_test_on_digests() {
    let mut d = [0xffu8; 32];
    assert!(digest_meets_difficulty(&d, 0));
    assert!(!digest_meets_difficulty(&d, 1));
    d[31] = 0xf0;
    assert!(digest_meets_difficulty(&d, 4));
    assert!(!digest_meets_difficulty(&d, 5));
    d[31] = 0;
    assert!(digest_meets_difficulty(&d, 8));
    assert!(!digest_meets_difficulty(&d, 9));
    d[30] = 0x80;
    assert!(digest_meets_difficulty(&d, 15));
    assert!(!digest_meets_difficulty(&d, 16));
    d[30] = 0;
    d[29] = 0x01;
    assert!(digest_meets_difficulty(&d, 16));
    assert!(!digest_meets_difficulty(&d, 17));
    let zero = [0u8; 32];
    assert!(digest_meets_difficulty(&zero, 255));
    let mut top = [0u8; 32];
    top[0] = 0x80;
    assert!(digest_meets_difficulty(&top, 255));
    top[0] = 0x81;
    assert!(!digest_meets_difficulty(&top, 255));
    assert!(digest_meets_difficulty(&top, 248));
}

#[test]
fn search_yields_first_accepted_candidate() {
    let b = Block::initial(8);
    assert_eq!(b.search(0, 121), Some(120));
    assert_eq!(b.search(0, 120), None);
    assert_eq!(b.search(120, 121), Some(120));
    assert_eq!(b.search(121, 200), Some(168));
    assert_eq!(b.search(121, 168), None);
    assert_eq!(b.search(50, 50), None);
    assert_eq!(b.search(60, 50), None);
}

#[test]
fn task_run_yields_nothing_for_a_barren_range() {
    let b = std::sync::Arc::new(Block::initial(8));
    let barren = MiningTask::new(b.clone(), 0, 120);
    assert_eq!(barren.min_range(), 0);
    assert_eq!(barren.max_range(), 120);
    assert_eq!(barren.run(), None);
    let fertile = MiningTask::new(b, 100, 200);
    assert_eq!(fertile.run(), Some(120));
}

#[test]
fn search_bound_is_eight_times_two_to_the_difficulty() {
    assert_eq!(search_bound_of(0), 8);
    assert_eq!(search_bound_of(1), 16);
    assert_eq!(search_bound_of(7), 1024);
    assert_eq!(search_bound_of(20), 8388608);
    assert_eq!(search_bound_of(60), 1u64 << 63);
    assert_eq!(search_bound_of(61), u64::MAX);
    assert_eq!(search_bound_of(255), u64::MAX);
}

#[test]
fn search_plan_of_a_block() {
    let b = Block::initial(7);
    assert_eq!(b.search_plan(), (0, 1024, 2345));
    assert_eq!(CHUNKS, 2345);
}

#[test]
fn range_is_cut_into_contiguous_chunks() {
    let b = Block::initial(8);
    let tasks = b.search_tasks(0, 10, 3);
    let bounds: Vec<(u64, u64)> = tasks.iter().map(|t| (t.min_range(), t.max_range())).collect();
    assert_eq!(bounds, vec![(0, 3), (3, 6), (6, 10)]);
    let tasks = b.search_tasks(5, 7, 4);
    let bounds: Vec<(u64, u64)> = tasks.iter().map(|t| (t.min_range(), t.max_range())).collect();
    assert_eq!(bounds, vec![(5, 5), (5, 5), (5, 5), (5, 7)]);
    let tasks = b.search_tasks(100, 200, 1);
    let bounds: Vec<(u64, u64)> = tasks.iter().map(|t| (t.min_range(), t.max_range())).collect();
    assert_eq!(bounds, vec![(100, 200)]);
    assert_eq!(b.search_tasks(0, 10, 0).len(), 0);
    assert_eq!(b.search_tasks(3, 3, 5).len(), 5);
}

#[test]
fn tasks_share_the_block() {
    let b = Block::initial(8);
    let tasks = b.search_tasks(0, 1000, 10);
    assert_eq!(tasks.len(), 10);
    assert_eq!(tasks[0].run(), None);
    assert_eq!(tasks[1].run(), Some(120));
    assert_eq!(tasks[9].min_range(), 900);
    assert_eq!(tasks[9].max_range(), 1000);
}

#[test]
fn collector_takes_first_accepted_candidate() {
    let b = Block::initial(8);
    let mut c = Collector::new(3);
    assert_eq!(c.outstanding(), 3);
    assert_eq!(c.observe(&b, None), Verdict::Pending);
    assert_eq!(c.outstanding(), 2);
    assert_eq!(c.observe(&b, Some(120)), Verdict::Found(120));
    assert_eq!(c.outstanding(), 1);
}

#[test]
fn collector_rechecks_candidates() {
    let b = Block::initial(8);
    let mut c = Collector::new(2);
    assert_eq!(c.observe(&b, Some(0)), Verdict::Pending);
    assert_eq!(c.observe(&b, Some(119)), Verdict::Exhausted);
    assert_eq!(c.outstanding(), 0);
    assert_eq!(c.observe(&b, None), Verdict::Exhausted);
    assert_eq!(c.outstanding(), 0);
    assert_eq!(c.observe(&b, Some(168)), Verdict::Found(168));
}

#[test]
fn collector_counts_tasks_not_candidates() {
    let b = Block::initial(200);
    let mut c = Collector::new(4);
    assert_eq!(c.observe(&b, None), Verdict::Pending);
    assert_eq!(c.observe(&b, None), Verdict::Pending);
    assert_eq!(c.observe(&b, None), Verdict::Pending);
    assert_eq!(c.observe(&b, None), Verdict::Exhausted);
    let mut single = Collector::new(1);
    assert_eq!(single.observe(&b, None), Verdict::Exhausted);
    let empty = Collector::new(0);
    assert_eq!(empty.outstanding(), 0);
}

#[test]
fn barren_range_is_exhausted_not_zero() {
    let b = Block::initial(200);
    assert_eq!(mine_range(&b, 0, 1, 1), Err(Error::ExhaustedSearch));
    let b8 = Block::initial(8);
    assert_eq!(mine_range(&b8, 0, 120, 7), Err(Error::ExhaustedSearch));
    assert_eq!(mine_range(&b8, 0, 121, 7), Ok(120));
    assert_eq!(mine_range(&b8, 0, 0, 0), Err(Error::ExhaustedSearch));
}

#[test]
fn chunk_count_does_not_change_validity() {
    let mut prev = Block::initial(9);
    prev.mine_serial().unwrap();
    let b = Block::next(&prev, String::from("same input")).unwrap();
    let (start, end, _) = b.search_plan();
    for chunks in [1u64, 8, 100, 2345] {
        let p = mine_range(&b, start, end, chunks).unwrap();
        assert!(b.is_valid_for_proof(p));
    }
}

#[test]
fn reports_in_any_order_yield_valid_proofs() {
    let b = Block::initial(6);
    let tasks = b.search_tasks(0, 512, 8);
    let mut forward = Collector::new(8);
    let mut found_forward = None;
    for t in tasks.iter() {
        if let Verdict::Found(p) = forward.observe(&b, t.run()) {
            found_forward = Some(p);
            break;
        }
    }
    let mut backward = Collector::new(8);
    let mut found_backward = None;
    for t in tasks.iter().rev() {
        if let Verdict::Found(p) = backward.observe(&b, t.run()) {
            found_backward = Some(p);
            break;
        }
    }
    assert!(b.is_valid_for_proof(found_forward.unwrap()));
    assert!(b.is_valid_for_proof(found_backward.unwrap()));
}
