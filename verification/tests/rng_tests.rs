//! The random stream: seeded determinism and unseeded divergence.

use shot_runner::rng::new_rng;

#[test]
fn test_rng() {
    let mut rng1 = new_rng(None);
    let mut rng2 = new_rng(None);

    // Some chance this could potentially happen, but it's reasonably
    // unlikely.
    assert_ne!(rng1.draw(), rng2.draw());
    assert_ne!(rng1.draw(), rng2.draw());
}

#[test]
fn test_seeded_rng() {
    let mut rng1 = new_rng(Some(1));
    let mut rng2 = new_rng(Some(1));

    assert_eq!(rng1.draw(), rng2.draw());
    assert_eq!(rng1.draw(), rng2.draw());

    assert_eq!(rng1.draw(), rng2.draw());
    assert_eq!(rng1.draw(), rng2.draw());
}

#[test]
fn different_seeds_diverge() {
    let mut rng1 = new_rng(Some(1));
    let mut rng2 = new_rng(Some(2));

    assert_ne!(rng1.draw(), rng2.draw());
}
