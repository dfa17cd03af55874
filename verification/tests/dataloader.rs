use burn_train::batcher::VecBatcher;
use burn_train::dataloader::DataLoaderBuilder;

fn builder() -> DataLoaderBuilder<i64, Vec<i64>, VecBatcher> {
    DataLoaderBuilder::new(VecBatcher)
}

fn collect_batches(
    loader: &burn_train::dataloader::DataLoader<i64, Vec<i64>, VecBatcher>,
) -> Vec<Vec<i64>> {
    let mut out = Vec::new();
    let mut it = loader.iter();
    while let Some(batch) = it.next() {
        out.push(batch);
    }
    out
}

#[test]
fn single_thread_batch_counts_and_sizes() {
    for s in 0..40usize {
        for b in 1..7usize {
            let dataset: Vec<i64> = (0..s as i64).collect();
            let loader = builder().batch_size(b).build(dataset);
            let batches = collect_batches(&loader);
            let expected = (s + b - 1) / b;
            assert_eq!(batches.len(), expected);
            for (i, batch) in batches.iter().enumerate() {
                if i + 1 < batches.len() {
                    assert_eq!(batch.len(), b);
                } else {
                    let last = if s % b == 0 { b } else { s % b };
                    assert_eq!(batch.len(), last);
                }
            }
        }
    }
}

#[test]
fn ten_items_batch_four_single_thread_no_shuffle() {
    let dataset: Vec<i64> = (0..10).collect();
    let loader = builder().batch_size(4).build(dataset);
    let batches = collect_batches(&loader);
    assert_eq!(batches, vec![vec![0, 1, 2, 3], vec![4, 5, 6, 7], vec![8, 9]]);
}

#[test]
fn shuffle_same_seed_is_deterministic() {
    let dataset: Vec<i64> = (0..37).collect();
    let l1 = builder().batch_size(5).shuffle(42).build(dataset.clone());
    let l2 = builder().batch_size(5).shuffle(42).build(dataset.clone());
    assert_eq!(collect_batches(&l1), collect_batches(&l2));
    // a second pass over one loader repeats the first
    assert_eq!(collect_batches(&l1), collect_batches(&l1));
    // a different seed gives a different order for this dataset
    let l3 = builder().batch_size(5).shuffle(43).build(dataset);
    assert_ne!(collect_batches(&l1), collect_batches(&l3));
}

#[test]
fn shuffle_is_a_permutation() {
    let dataset: Vec<i64> = (0..25).collect();
    let loader = builder().batch_size(4).shuffle(7).build(dataset.clone());
    let mut seen: Vec<i64> = collect_batches(&loader).into_iter().flatten().collect();
    seen.sort();
    assert_eq!(seen, dataset);
}

#[test]
fn multi_thread_preserves_items() {
    for workers in 1..6usize {
        let dataset: Vec<i64> = (0..23).map(|x| x * 3 + 1).collect();
        let loader = builder()
            .batch_size(4)
            .num_workers(workers)
            .shuffle(99)
            .build(dataset.clone());
        let mut seen: Vec<i64> = collect_batches(&loader).into_iter().flatten().collect();
        seen.sort();
        let mut expected = dataset;
        expected.sort();
        assert_eq!(seen, expected);
    }
}

#[test]
fn multi_thread_keeps_order_within_a_worker_slice() {
    // 10 items over 2 workers: slices [0..5) and [5..10), batch size 2,
    // each slice flushes its own trailing partial batch.
    let dataset: Vec<i64> = (0..10).collect();
    let loader = builder().batch_size(2).num_workers(2).build(dataset);
    let batches = collect_batches(&loader);
    assert_eq!(
        batches,
        vec![vec![0, 1], vec![2, 3], vec![4], vec![5, 6], vec![7, 8], vec![9]]
    );
}

#[test]
fn shuffled_multi_worker_pass_is_deterministic() {
    let dataset: Vec<i64> = (0..31).collect();
    let l1 = builder()
        .batch_size(3)
        .num_workers(4)
        .shuffle(11)
        .build(dataset.clone());
    let l2 = builder()
        .batch_size(3)
        .num_workers(4)
        .shuffle(11)
        .build(dataset);
    assert_eq!(collect_batches(&l1), collect_batches(&l2));
}

#[test]
fn default_batch_size_is_one() {
    let dataset: Vec<i64> = vec![5, 6, 7];
    let loader = builder().build(dataset);
    let batches = collect_batches(&loader);
    assert_eq!(batches, vec![vec![5], vec![6], vec![7]]);
}

#[test]
fn progress_counts_raw_items() {
    let dataset: Vec<i64> = (0..10).collect();
    let loader = builder().batch_size(4).build(dataset);
    let mut it = loader.iter();
    assert_eq!(it.progress().items_processed, 0);
    assert_eq!(it.progress().items_total, 10);
    assert!(it.next().is_some());
    assert_eq!(it.progress().items_processed, 4);
    assert!(it.next().is_some());
    assert_eq!(it.progress().items_processed, 8);
    assert!(it.next().is_some());
    assert_eq!(it.progress().items_processed, 10);
    assert!(it.next().is_none());
    assert_eq!(it.progress().items_processed, 10);
}

#[test]
fn empty_dataset_gives_no_batches() {
    let dataset: Vec<i64> = Vec::new();
    let loader = builder().batch_size(3).build(dataset);
    assert_eq!(collect_batches(&loader).len(), 0);
}
