use lokal::batch::{pool_positions, size_ids, Intake, Scheduler};
use lokal::config::EosIds;
use lokal::generate::Decoder;

#[test]
fn the_pool_is_capped() {
    assert_eq!(pool_positions(4096), 4096);
    assert_eq!(pool_positions(131_072), 8192);
}

#[test]
fn requests_are_sized_or_refused() {
    let s: Scheduler<()> = Scheduler::new(2, 100, 50);
    assert_eq!(s.size_request(10, 20), Ok(30));
    assert_eq!(s.size_request(10, 200), Ok(50));
    assert_eq!(
        s.size_request(0, 5),
        Err("prompt (0 tokens) is empty or exceeds the 5-token budget".to_string())
    );
    assert_eq!(
        s.size_request(60, 5),
        Err("prompt (60 tokens) is empty or exceeds the 50-token budget".to_string())
    );
}

#[test]
fn slots_fill_and_come_back() {
    let mut s: Scheduler<&str> = Scheduler::new(2, 100, 100);
    assert!(matches!(s.intake(), Intake::Wait));
    let first = s.next_slot();
    s.enter(3, 10, "one");
    assert!(matches!(s.intake(), Intake::Poll));
    let second = s.next_slot();
    assert_ne!(first, second);
    s.enter(4, 10, "two");
    assert!(matches!(s.intake(), Intake::Full));
    assert_eq!(s.n_active(), 2);
    let left = s.drain();
    assert_eq!(left.len(), 2);
    assert_eq!(s.n_active(), 0);
    assert!(matches!(s.intake(), Intake::Wait));
}

#[test]
fn a_step_takes_a_token_per_request() {
    let eos = EosIds::One(9);
    let mut s: Scheduler<u32> = Scheduler::new(2, 100, 100);
    s.enter(3, 5, 100);
    s.enter(4, 10, 200);
    assert_eq!(s.next_index(), Some(0));
    assert_eq!(*s.payload_mut(0), 100);
    assert!(s.take(7, &eos).is_none());
    assert_eq!(s.next_index(), Some(1));
    // The second request ends: its tokens come back and its slot is free.
    let done = s.take(9, &eos).unwrap();
    assert_eq!((done.payload, done.prompt_tokens, done.generated.len()), (200, 4, 0));
    assert_eq!(s.next_index(), None);
    let rows: Vec<(u32, usize)> = s.rows().iter().map(|r| (r.token, r.pos)).collect();
    assert_eq!(rows, vec![(7, 3)]);
    s.advance();
    assert_eq!(s.n_active(), 1);
    // One more token fills the first request's positions: it is kept, and the
    // request is over.
    let done = s.take(8, &eos).unwrap();
    assert_eq!((done.payload, done.generated), (100, vec![7, 8]));
    assert_eq!(s.n_active(), 0);
}

/// The token a request's model chooses after what it has generated.
fn choice(seed: u32, done: &[u32]) -> u32 {
    (seed * 5 + done.iter().sum::<u32>() * 3 + done.len() as u32) % 10
}

/// One request on its own.
fn plain(seed: u32, room: usize, eos: &EosIds) -> Vec<u32> {
    let mut run = Decoder::new(4, 4 + room);
    while run.wants_more() {
        let next = choice(seed, run.generated());
        if run.accept(next, eos).is_none() {
            break;
        }
    }
    run.generated().to_vec()
}

#[test]
fn batched_requests_generate_what_they_would_alone() {
    let eos = EosIds::One(9);
    let rooms = [3usize, 9, 1, 6, 12, 2, 7];
    let mut waiting: Vec<u32> = (0..rooms.len() as u32).rev().collect();
    let mut s: Scheduler<u32> = Scheduler::new(3, 100, 100);
    let mut done: Vec<(u32, Vec<u32>)> = Vec::new();
    while done.len() < rooms.len() {
        while !matches!(s.intake(), Intake::Full) {
            let Some(seed) = waiting.pop() else { break };
            s.enter(4, 4 + rooms[seed as usize], seed);
        }
        // What each request in flight has generated, in step with the schedule.
        let mut kept: Vec<(u32, Vec<u32>)> = Vec::new();
        while let Some(i) = s.next_index() {
            let seed = *s.payload_mut(i) % 100;
            let so_far: Vec<u32> = plain(seed, (*s.payload_mut(i) / 100) as usize, &EosIds::Many(vec![]));
            let next = choice(seed, &so_far);
            *s.payload_mut(i) += 100;
            if let Some(a) = s.take(next, &eos) {
                assert_eq!(a.prompt_tokens, 4);
                done.push((seed, a.generated));
            } else {
                kept.push((seed, so_far));
            }
        }
        assert_eq!(s.rows().len(), kept.len());
        s.advance();
    }
    done.sort();
    for (seed, tokens) in done {
        assert_eq!(tokens, plain(seed, rooms[seed as usize], &eos), "request {seed}");
    }
}

#[test]
fn encoded_prompts_are_sized() {
    let s: Scheduler<()> = Scheduler::new(2, 100, 50);
    assert_eq!(size_ids(&s, Ok(vec![1, 2, 3]), 4), Ok((vec![1, 2, 3], 7)));
    assert_eq!(size_ids(&s, Err("no".to_string()), 4), Err("no".to_string()));
    assert!(size_ids(&s, Ok(vec![]), 4).is_err());
}
