use kleinian::{Bag, Cmd, Letter, Walk};

use Letter::{A, AI, B, BI};

fn run(g: &mut Walk, close: bool) -> usize {
    let mut steps: usize = 0;
    while g.current().is_some() {
        g.step(close);
        steps += 1;
    }
    steps
}

fn words(g: &Walk) -> Vec<(bool, Vec<Letter>)> {
    g.commands()
        .iter()
        .map(|c| match c {
            Cmd::MoveTo(w) => (true, w.clone()),
            Cmd::LineTo(w) => (false, w.clone()),
        })
        .collect()
}

#[test]
fn inverse_letters() {
    assert_eq!(A.inv(), AI);
    assert_eq!(B.inv(), BI);
    assert_eq!(AI.inv(), A);
    assert_eq!(BI.inv(), B);
    for l in [A, B, AI, BI] {
        assert_eq!(l.inv().inv(), l);
        assert_ne!(l.inv(), l);
    }
}

#[test]
fn children_table() {
    assert_eq!(A.children(), (B, A, BI));
    assert_eq!(B.children(), (AI, B, A));
    assert_eq!(AI.children(), (BI, AI, B));
    assert_eq!(BI.children(), (A, BI, AI));
    for l in [A, B, AI, BI] {
        let (c1, c2, c3) = l.children();
        assert!(c1 != l.inv() && c2 != l.inv() && c3 != l.inv());
    }
}

#[test]
fn endpoint_tails() {
    assert_eq!(A.endpoint_tail(), vec![BI, AI]);
    assert_eq!(B.endpoint_tail(), vec![BI]);
    assert_eq!(AI.endpoint_tail(), Vec::<Letter>::new());
    assert_eq!(BI.endpoint_tail(), vec![AI]);
}

#[test]
fn bag_slots() {
    let bag = Bag::new(10u32, 20u32, 30u32, 40u32);
    assert_eq!(*bag.at(A), 10);
    assert_eq!(*bag.at(B), 20);
    assert_eq!(*bag.at(AI), 30);
    assert_eq!(*bag.at(BI), 40);
}

#[test]
fn new_walk_holds_seed_and_top_level_order() {
    let g = Walk::new(50);
    assert_eq!(g.max_level(), 50);
    assert_eq!(words(&g), vec![(true, vec![])]);
    let f = g.current().unwrap();
    assert_eq!(f.level, 49);
    assert_eq!(f.word, vec![A]);
}

#[test]
fn depth_one_emits_five_commands() {
    let mut g = Walk::new(1);
    let steps = run(&mut g, false);
    assert_eq!(steps, 4);
    assert_eq!(
        words(&g),
        vec![
            (true, vec![]),
            (false, vec![A]),
            (false, vec![BI]),
            (false, vec![AI]),
            (false, vec![B]),
        ]
    );
}

#[test]
fn depth_two_walks_children_in_order() {
    let mut g = Walk::new(2);
    run(&mut g, false);
    let w = words(&g);
    assert_eq!(w.len(), 13);
    assert_eq!(w[0], (true, vec![]));
    let lines: Vec<Vec<Letter>> = w[1..].iter().map(|(_, x)| x.clone()).collect();
    assert_eq!(
        lines,
        vec![
            vec![A, B],
            vec![A, A],
            vec![A, BI],
            vec![BI, A],
            vec![BI, BI],
            vec![BI, AI],
            vec![AI, BI],
            vec![AI, AI],
            vec![AI, B],
            vec![B, AI],
            vec![B, B],
            vec![B, A],
        ]
    );
}

#[test]
fn point_count_grows_threefold_per_level() {
    let mut counts = Vec::new();
    for level in 1..=6 {
        let mut g = Walk::new(level);
        run(&mut g, false);
        counts.push(g.commands().len() - 1);
    }
    assert_eq!(counts, vec![4, 12, 36, 108, 324, 972]);
}

#[test]
fn close_endpoints_stop_descent() {
    let mut g = Walk::new(50);
    let steps = run(&mut g, true);
    assert_eq!(steps, 4);
    assert_eq!(g.commands().len(), 5);
}

#[test]
fn descend_then_stop() {
    let mut g = Walk::new(10);
    assert!(!g.step(false));
    let f = g.current().unwrap();
    assert_eq!(f.level, 8);
    assert_eq!(f.word, vec![A, B]);
    assert!(g.step(true));
    assert_eq!(words(&g)[1], (false, vec![A, B]));
    assert_eq!(g.current().unwrap().word, vec![A, A]);
}

#[test]
fn single_move_to_then_lines() {
    let mut g = Walk::new(5);
    let mut k: u32 = 0;
    while g.current().is_some() {
        g.step(k % 3 == 0);
        k += 1;
    }
    let w = words(&g);
    assert!(w[0].0 && w[0].1.is_empty());
    for (is_move, word) in &w[1..] {
        assert!(!is_move);
        assert!(!word.is_empty());
        for p in word.windows(2) {
            assert_ne!(p[1], p[0].inv());
        }
    }
}

#[test]
fn non_positive_depth_plots_top_level_only() {
    for level in [0i64, -3, i64::MIN + 1] {
        let mut g = Walk::new(level);
        assert_eq!(run(&mut g, false), 4);
        assert_eq!(g.commands().len(), 5);
    }
}

#[test]
fn step_on_finished_walk_does_nothing() {
    let mut g = Walk::new(1);
    run(&mut g, false);
    assert!(!g.step(false));
    assert!(!g.step(true));
    assert_eq!(g.commands().len(), 5);
}

#[test]
fn cut_offs_never_add_points() {
    for level in 1..=5i64 {
        let full = 4 * 3usize.pow((level - 1) as u32);
        let mut g = Walk::new(level);
        let mut k: u32 = 0;
        while g.current().is_some() {
            g.step(k % 5 == 2);
            k += 1;
        }
        assert!(g.commands().len() - 1 <= full);
        let mut h = Walk::new(level);
        run(&mut h, false);
        assert_eq!(h.commands().len() - 1, full);
    }
}
