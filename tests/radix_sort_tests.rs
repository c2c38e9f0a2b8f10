use rand::Rng;
use rfs_gsplat_render::cull::DrawIndirectArgs;
use rfs_gsplat_render::radix_sort::{create_radix_sort_buffers, execute_radix_sort, radix_sort_pairs};

fn cpu_radix_sort_reference(keys: &mut Vec<u32>, values: &mut Vec<u32>) {
    radix_sort_pairs(keys, values);
}

fn is_sorted(keys: &[u32]) -> bool {
    for i in 1..keys.len() {
        if keys[i] < keys[i - 1] {
            return false;
        }
    }
    true
}

fn verify_permutation(original_keys: &[u32], original_values: &[u32], sorted_keys: &[u32], sorted_values: &[u32]) -> bool {
    if original_keys.len() != sorted_keys.len() {
        return false;
    }
    for i in 0..sorted_keys.len() {
        let mut found = false;
        for j in 0..original_keys.len() {
            if original_keys[j] == sorted_keys[i] && original_values[j] == sorted_values[i] {
                found = true;
                break;
            }
        }
        if !found {
            return false;
        }
    }
    true
}

#[test]
fn test_cpu_reference_small() {
    let mut keys = vec![5, 2, 8, 1, 9, 3, 7, 4, 6, 0];
    let mut values: Vec<u32> = (0..10).collect();
    let original_keys = keys.clone();
    let original_values = values.clone();
    cpu_radix_sort_reference(&mut keys, &mut values);
    assert!(is_sorted(&keys), "Keys should be sorted");
    assert!(verify_permutation(&original_keys, &original_values, &keys, &values), "Values should be correctly permuted");
}

#[test]
fn test_cpu_reference_random() {
    let mut rng = rand::thread_rng();
    let n = 1000;
    let mut keys: Vec<u32> = (0..n).map(|_| rng.gen()).collect();
    let mut values: Vec<u32> = (0..n).collect();
    let original_keys = keys.clone();
    let original_values = values.clone();
    cpu_radix_sort_reference(&mut keys, &mut values);
    assert!(is_sorted(&keys), "Keys should be sorted");
    assert!(verify_permutation(&original_keys, &original_values, &keys, &values), "Values should be correctly permuted");
}

#[test]
fn test_cpu_reference_duplicates() {
    let mut keys = vec![5, 2, 5, 1, 9, 2, 7, 5, 6, 1];
    let mut values: Vec<u32> = (0..10).collect();
    let original_keys = keys.clone();
    let original_values = values.clone();
    cpu_radix_sort_reference(&mut keys, &mut values);
    assert!(is_sorted(&keys), "Keys should be sorted");
    assert!(verify_permutation(&original_keys, &original_values, &keys, &values), "Values should be correctly permuted");
}

#[test]
fn test_cpu_reference_already_sorted() {
    let mut keys: Vec<u32> = (0..100).collect();
    let mut values: Vec<u32> = (0..100).collect();
    let original_keys = keys.clone();
    cpu_radix_sort_reference(&mut keys, &mut values);
    assert_eq!(keys, original_keys, "Already sorted array should remain unchanged");
    assert!(is_sorted(&keys), "Keys should be sorted");
}

#[test]
fn test_cpu_reference_reverse_sorted() {
    let mut keys: Vec<u32> = (0..100).rev().collect();
    let mut values: Vec<u32> = (0..100).collect();
    cpu_radix_sort_reference(&mut keys, &mut values);
    assert!(is_sorted(&keys), "Keys should be sorted");
}

#[test]
fn test_cpu_reference_edge_cases() {
    let mut keys = vec![u32::MAX, 0, u32::MAX / 2, 1];
    let mut values = vec![0, 1, 2, 3];
    cpu_radix_sort_reference(&mut keys, &mut values);
    assert!(is_sorted(&keys), "Keys should be sorted");
    assert_eq!(keys, vec![0, 1, u32::MAX / 2, u32::MAX]);
}

#[test]
fn stable_among_equal_keys() {
    let mut keys = vec![7, 3, 7, 3, 7, 0x0100, 0x0001];
    let mut values = vec![0, 1, 2, 3, 4, 5, 6];
    radix_sort_pairs(&mut keys, &mut values);
    assert_eq!(keys, vec![1, 3, 3, 7, 7, 7, 0x0100]);
    assert_eq!(values, vec![6, 1, 3, 0, 2, 4, 5]);
}

#[test]
fn sorted_input_keeps_every_value_in_place() {
    let mut keys = vec![0, 0, 5, 5, 5, 9, 0x1_0000, 0x1_0000];
    let mut values = vec![40, 30, 20, 10, 0, 7, 3, 1];
    radix_sort_pairs(&mut keys, &mut values);
    assert_eq!(keys, vec![0, 0, 5, 5, 5, 9, 0x1_0000, 0x1_0000]);
    assert_eq!(values, vec![40, 30, 20, 10, 0, 7, 3, 1]);
}

#[test]
fn sorts_only_the_visible_prefix() {
    let mut keys = vec![9, 4, 8, 1, 100, 50];
    let mut values = vec![0, 1, 2, 3, 4, 5];
    let mut buffers = create_radix_sort_buffers(8);
    assert_eq!(buffers.num_partitions, 1);
    execute_radix_sort(&mut keys, &mut values, &mut buffers, &DrawIndirectArgs::for_points(4));
    assert_eq!(keys, vec![1, 4, 8, 9, 100, 50]);
    assert_eq!(values, vec![3, 1, 2, 0, 4, 5]);
}

#[test]
fn stable_across_partitions() {
    let n: u32 = 5000;
    let mut keys: Vec<u32> = (0..n).map(|i| (i * 7919) % 13).collect();
    let original = keys.clone();
    let mut values: Vec<u32> = (0..n).collect();
    radix_sort_pairs(&mut keys, &mut values);
    for i in 0..n as usize {
        assert_eq!(original[values[i] as usize], keys[i]);
        if i > 0 {
            assert!(keys[i - 1] < keys[i] || (keys[i - 1] == keys[i] && values[i - 1] < values[i]));
        }
    }
}

#[test]
fn partitions_cover_capacity() {
    assert_eq!(create_radix_sort_buffers(0).num_partitions, 0);
    assert_eq!(create_radix_sort_buffers(1024).num_partitions, 1);
    assert_eq!(create_radix_sort_buffers(1025).num_partitions, 2);
    let b = create_radix_sort_buffers(3000);
    assert_eq!(b.num_partitions, 3);
    assert_eq!(b.global_histogram.len(), 4 * 256);
    assert_eq!(b.keys_temp.len(), 3000);
}

#[test]
fn ten_million_random_keys() {
    let n: u32 = 10_000_000;
    let mut state: u64 = 0x9E37_79B9_7F4A_7C15;
    let mut keys: Vec<u32> = Vec::with_capacity(n as usize);
    for _ in 0..n {
        state = state.wrapping_mul(6364136223846793005).wrapping_add(1442695040888963407);
        keys.push((state >> 32) as u32);
    }
    let original = keys.clone();
    let mut values: Vec<u32> = (0..n).collect();
    radix_sort_pairs(&mut keys, &mut values);
    let mut reference = original.clone();
    reference.sort();
    assert_eq!(keys, reference);
    for i in 0..n as usize {
        assert_eq!(original[values[i] as usize], keys[i]);
        if i > 0 && keys[i] == keys[i - 1] {
            assert!(values[i - 1] < values[i]);
        }
    }
}
