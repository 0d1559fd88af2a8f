use rand::{Rng, SeedableRng};
use ft_linear_regression::dataset::parse_dataset;
use ft_linear_regression::ratio::Ratio;
use ft_linear_regression::split::{split_dataset, DatasetSplitter, Split};

const SUBJECT_DATA: &str = "km,price
240000,3650
139800,3800
150500,4400
185530,4450
176000,5250
114800,5350
166800,5800
89000,5990
144500,5999
84000,6200
82029,6390
63060,6390
74000,6600
97500,6800
67000,6800
76025,6900
48235,6900
93000,6990
60949,7490
65674,7555
54000,7990
68500,7990
22899,7990
61789,8290
";

fn load(text: &str) -> Vec<(f64, f64)> {
    let table = parse_dataset(text).ok().unwrap();
    table
        .rows
        .iter()
        .map(|r| (r.x.parse::<f64>().unwrap(), r.y.parse::<f64>().unwrap()))
        .collect()
}

fn extremes(set: &Vec<(f64, f64)>) -> (f64, f64) {
    let mut min_key = f64::MAX;
    let mut max_key = f64::MIN;
    for (key, _) in set.iter() {
        min_key = min_key.min(*key);
        max_key = max_key.max(*key);
    }
    (min_key, max_key)
}

fn do_vecs_match<T: PartialEq>(a: &Vec<T>, b: &Vec<T>) -> bool {
    let matching = a.iter().zip(b.iter()).filter(|&(a, b)| a == b).count();
    matching == a.len() && matching == b.len()
}

#[test]
fn rng_seed_get() {
    let mut ctx = DatasetSplitter::new();
    let x = ctx.get_seed();
    let y = ctx.get_seed();
    assert_eq!(x, y);
}

#[test]
fn dataset_split_length() {
    let data = load(SUBJECT_DATA);
    let mut splitter = DatasetSplitter::new();
    let split = splitter.split(&data).ok().unwrap();
    assert_eq!(split.train.len(), 20);
    assert_eq!(split.test.len(), 4);
}

#[test]
fn dataset_split_per_seed() {
    let data = load(SUBJECT_DATA);
    let mut splitter_one = DatasetSplitter::new();
    let seed = splitter_one.get_seed();
    let mut splitter_two = DatasetSplitter::new();
    splitter_two.set_seed(seed);
    assert_eq!(seed, splitter_two.get_seed());
    let one: Split<(f64, f64)> = splitter_one.split(&data).ok().unwrap();
    let two: Split<(f64, f64)> = splitter_two.split(&data).ok().unwrap();
    assert_eq!(extremes(&one.train), extremes(&two.train));
    assert!(do_vecs_match(&one.train, &two.train));
    assert!(do_vecs_match(&one.test, &two.test));
}

#[test]
fn split_partitions_the_rows() {
    let data = load(SUBJECT_DATA);
    for seed in 0..50u64 {
        let split = split_dataset(&data, seed, Ratio::new(2, 3).ok().unwrap()).ok().unwrap();
        assert_eq!(split.train.len() + split.test.len(), data.len());
        assert!(split.test.len() <= 8);
        let mut all: Vec<(f64, f64)> = split.train.clone();
        all.extend(split.test.iter().cloned());
        let mut left: Vec<(f64, f64)> = data.clone();
        all.sort_by(|a, b| a.partial_cmp(b).unwrap());
        left.sort_by(|a, b| a.partial_cmp(b).unwrap());
        assert_eq!(all, left);
    }
}

#[test]
fn split_keeps_the_order_of_rows() {
    let rows: Vec<u32> = (0..100).collect();
    let split = split_dataset(&rows, 42, Ratio::new(1, 2).ok().unwrap()).ok().unwrap();
    assert!(split.train.windows(2).all(|w| w[0] < w[1]));
    assert!(split.test.windows(2).all(|w| w[0] < w[1]));
    assert!(split.test.len() <= 50);
}

#[test]
fn same_seed_gives_same_split() {
    let rows: Vec<u32> = (0..200).collect();
    let ratio = Ratio::new(4, 5).ok().unwrap();
    let a = split_dataset(&rows, 7, ratio).ok().unwrap();
    let b = split_dataset(&rows, 7, ratio).ok().unwrap();
    assert_eq!(a.train, b.train);
    assert_eq!(a.test, b.test);
}

#[test]
fn empty_dataset_is_a_config_error() {
    let rows: Vec<u32> = Vec::new();
    let r = split_dataset(&rows, 1, Ratio::new(1, 2).ok().unwrap());
    assert!(matches!(r, Err(ft_linear_regression::error::TrainError::EmptyTrainSet)));
}

#[test]
fn full_ratio_leaves_no_test_set() {
    let text = "km,price\n10,100\n20,80\n30,60\n40,40\n";
    let data = load(text);
    assert_eq!(data, vec![(10.0, 100.0), (20.0, 80.0), (30.0, 60.0), (40.0, 40.0)]);
    let ratio = Ratio::parse("1.0").ok().unwrap();
    let split = split_dataset(&data, 12345, ratio).ok().unwrap();
    assert_eq!(split.train, data);
    assert!(split.test.is_empty());
}

#[test]
fn one_row_always_trains() {
    let rows = vec![5u8];
    for seed in 0..20u64 {
        let split = split_dataset(&rows, seed, Ratio::new(1, 100).ok().unwrap()).ok().unwrap();
        assert_eq!(split.train, vec![5u8]);
        assert!(split.test.is_empty());
    }
}

#[test]
fn split_follows_the_seeded_generator() {
    let rows: Vec<u32> = (0..60).collect();
    for seed in [0u64, 1, 99, u64::MAX] {
        let ratio = Ratio::new(3, 4).ok().unwrap();
        let split = split_dataset(&rows, seed, ratio).ok().unwrap();
        let mut rng = rand::rngs::StdRng::seed_from_u64(seed);
        let mut quota = 15;
        let mut train = Vec::new();
        let mut test = Vec::new();
        for r in rows.iter() {
            if rng.gen::<bool>() && quota > 0 {
                test.push(*r);
                quota -= 1;
            } else {
                train.push(*r);
            }
        }
        assert_eq!(split.train, train);
        assert_eq!(split.test, test);
    }
}

#[test]
fn different_seeds_give_different_splits() {
    let rows: Vec<u32> = (0..200).collect();
    let ratio = Ratio::new(1, 2).ok().unwrap();
    let a = split_dataset(&rows, 1, ratio).ok().unwrap();
    let b = split_dataset(&rows, 2, ratio).ok().unwrap();
    assert_ne!(a.test, b.test);
}

#[test]
fn splitter_keeps_a_set_seed() {
    let rows: Vec<u32> = (0..30).collect();
    let mut s = DatasetSplitter::new();
    s.set_seed(77);
    let a = s.split(&rows).ok().unwrap();
    assert_eq!(s.rng_seed, Some(77));
    let b = split_dataset(&rows, 77, Ratio::new(4, 5).ok().unwrap()).ok().unwrap();
    assert_eq!(a.train, b.train);
    assert_eq!(a.test, b.test);
}

#[test]
fn splitter_chooses_and_keeps_a_seed() {
    let rows: Vec<u32> = (0..30).collect();
    let mut s = DatasetSplitter::new();
    assert_eq!(s.rng_seed, None);
    let a = s.split(&rows).ok().unwrap();
    let seed = s.rng_seed.unwrap();
    let b = s.split(&rows).ok().unwrap();
    assert_eq!(s.rng_seed, Some(seed));
    assert_eq!(a.train, b.train);
    assert_eq!(a.test, b.test);
}

#[test]
fn invalid_ratio_is_a_config_error() {
    let rows: Vec<u32> = (0..10).collect();
    for (num, den) in [(0u64, 5u64), (6, 5), (1, 0), (0, 0)] {
        let ratio = Ratio { num, den };
        let r = split_dataset(&rows, 3, ratio);
        assert!(matches!(r, Err(ft_linear_regression::error::TrainError::BadRatio)));
        let mut s = DatasetSplitter { ratio, rng_seed: Some(3) };
        assert!(matches!(s.split(&rows), Err(ft_linear_regression::error::TrainError::BadRatio)));
    }
    let empty: Vec<u32> = Vec::new();
    let r = split_dataset(&empty, 3, Ratio { num: 7, den: 5 });
    assert!(matches!(r, Err(ft_linear_regression::error::TrainError::BadRatio)));
}
