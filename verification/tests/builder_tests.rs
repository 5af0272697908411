use md4::{Digest, Md4};
use md4rip::Builder;
use md4rip::state::MD4State;

#[test]
fn builder_build_without_prefix() {
    let mut builder = Builder::new();
    match builder.build() {
        Ok((_padding, m1, m2)) => {
            let mut hasher1 = Md4::new();
            let mut hasher2 = Md4::new();

            hasher1.update(&m1);
            hasher2.update(&m2);

            assert_eq!(hasher1.finalize(), hasher2.finalize())
        }
        Err(e) => println!("{:?}", e),
    }
}

#[test]
fn builder_build_with_random_prefix() {
    let mut builder = Builder::new();

    // Create random prefix (1B ~ 4MB)
    let prefix: Vec<u8> = vec![rand::random(); rand::random::<usize>() % 4095 + 1];
    builder.input(&prefix);

    match builder.build() {
        Ok((padding, m1, m2)) => {
            let mut hasher1 = Md4::new();
            let mut hasher2 = Md4::new();

            hasher1.update(&prefix);
            hasher1.update(&padding);
            hasher1.update(&m1);

            hasher2.update(&prefix);
            hasher2.update(&padding);
            hasher2.update(&m2);

            assert_eq!(hasher1.finalize(), hasher2.finalize())
        }
        Err(e) => println!("{:?}", e),
    }
}

#[test]
fn lib_build_without_prefix() {
    let mut builder = Builder::new();
    match builder.build() {
        Ok((_padding, m1, m2)) => {
            let mut hasher1 = Md4::new();
            let mut hasher2 = Md4::new();

            hasher1.update(&m1);
            hasher2.update(&m2);

            assert_eq!(hasher1.finalize(), hasher2.finalize())
        }
        Err(e) => println!("{:?}", e),
    }
}

#[test]
fn lib_build_with_random_prefix() {
    let mut builder = Builder::new();

    // Create random prefix (1B ~ 4MB)
    let prefix: Vec<u8> = vec![rand::random(); rand::random::<usize>() % 4095 + 1];
    builder.input(&prefix);

    match builder.build() {
        Ok((padding, m1, m2)) => {
            let mut hasher1 = Md4::new();
            let mut hasher2 = Md4::new();

            hasher1.update(&prefix);
            hasher1.update(&padding);
            hasher1.update(&m1);

            hasher2.update(&prefix);
            hasher2.update(&padding);
            hasher2.update(&m2);

            assert_eq!(hasher1.finalize(), hasher2.finalize())
        }
        Err(e) => println!("{:?}", e),
    }
}

// Collisions after prefixes of assorted lengths: empty, shorter than a
// block, exactly one block, just over a block, exact multiples, and a
// ragged tail. Checks the zero-padding length formula and that both
// padded messages hash identically.
#[test]
fn collision_after_various_prefixes() {
    for &n in [0usize, 1, 63, 64, 65, 128, 130].iter() {
        let prefix: Vec<u8> = (0..n).map(|i| (i % 251) as u8).collect();
        let mut builder = Builder::new();
        builder.input(&prefix);
        let (padding, m1, m2) = builder.build().unwrap();

        assert_eq!(padding.len(), (64 - n % 64) % 64);
        assert!(padding.iter().all(|&b| b == 0));
        assert_ne!(m1, m2);
        assert_eq!(m1.len(), 64);
        assert_eq!(m2.len(), 64);

        let mut h1 = Md4::new();
        h1.update(&prefix);
        h1.update(&padding);
        h1.update(&m1);
        let mut h2 = Md4::new();
        h2.update(&prefix);
        h2.update(&padding);
        h2.update(&m2);
        assert_eq!(h1.finalize(), h2.finalize());
    }
}

// Bytes fed in several calls accumulate exactly as one call would;
// block boundaries may fall inside any of the chunks.
#[test]
fn input_accumulates_across_calls() {
    let prefix: Vec<u8> = (0..150).map(|i| i as u8).collect();
    let mut builder = Builder::new();
    builder.input(&prefix[..10]);
    builder.input(&prefix[10..100]);
    builder.input(&prefix[100..]);
    let (padding, m1, m2) = builder.build().unwrap();

    assert_eq!(padding.len(), (64 - 150 % 64) % 64);

    let mut h1 = Md4::new();
    h1.update(&prefix);
    h1.update(&padding);
    h1.update(&m1);
    let mut h2 = Md4::new();
    h2.update(&prefix);
    h2.update(&padding);
    h2.update(&m2);
    assert_eq!(h1.finalize(), h2.finalize());
}

// An empty prefix needs no padding block at all: the collision starts
// from the MD4 initial constants, and both blocks compress to the same
// state from there.
#[test]
fn empty_prefix_collides_from_initial_state() {
    let mut builder = Builder::new();
    builder.set_timeout(5);
    let (padding, m1, m2) = builder.build().unwrap();

    assert_eq!(padding.len(), 0);
    assert_ne!(m1, m2);

    let s1 = MD4State::new().process_block(&m1);
    let s2 = MD4State::new().process_block(&m2);
    assert_eq!(s1, s2);
}
