use shufflebag::ShuffleBag;

#[test]
fn small_bag() {
    let mut b = ShuffleBag::<i32>::new();

    let mut vecs = vec![vec![0; 3]; 3];
    const ITERATIONS: i32 = 1000000;
    const BENCH: i32 = ITERATIONS / 3 + ITERATIONS / 100;

    for _ in 0..ITERATIONS {
        b.push(0);
        b.push(1);
        b.push(2);

        for i in 0..3 {
            let item = b.pop().unwrap();
            vecs[i][item as usize] += 1;
        }
    }

    // a close to uniform distribution
    for v in &vecs {
        for item in v {
            assert!(*item < BENCH);
        }
    }
}

#[test]
fn large_bag() {
    let mut b = ShuffleBag::<i32>::new();

    const ITERATIONS: usize = 10000;
    const ITEMS: usize = 100;
    const BENCH: usize = ITERATIONS + ITERATIONS / 100usize;
    let mut vecs = vec![vec![0; ITEMS]; ITEMS];

    for _ in 0..ITERATIONS {
        for i in 0..ITEMS {
            b.push(i as i32);
        }

        for i in 0..ITEMS {
            let item = b.pop().unwrap();
            vecs[i][item as usize] += 1;
        }
    }

    // a close to uniform distribution
    for v in &vecs {
        let mut count = 0;
        for item in v {
            count += *item;
        }
        assert!(count < BENCH);
    }
}

#[test]
fn normal_bag() {
    let mut b = ShuffleBag::<i32>::new();

    const ITERATIONS: usize = 10000;
    const ITEMS: usize = 5;
    let mut vecs = vec![vec![0; ITEMS + ITEMS]; ITEMS + ITEMS];

    for _ in 0..ITERATIONS {
        for i in 0..ITEMS {
            for j in 0..ITEMS {
                b.push(i as i32 + j as i32);
            }
        }

        for i in 0..ITEMS + ITEMS {
            let item = b.pop().unwrap();
            vecs[i][item as usize] += 1;
        }
    }
}

#[test]
fn uniform_positions_for_three_values() {
    let mut b = ShuffleBag::<usize>::with_u64(7);
    let rounds: usize = 30000;
    let mut counts = vec![vec![0usize; 3]; 3];
    for _ in 0..rounds {
        b.push(0);
        b.push(1);
        b.push(2);
        for slot in 0..3 {
            let item = b.pop().unwrap();
            counts[slot][item] += 1;
        }
    }
    assert!(b.is_empty());
    for row in &counts {
        for c in row {
            assert!(*c * 100 < rounds * 37);
            assert!(*c * 100 > rounds * 29);
        }
    }
}
