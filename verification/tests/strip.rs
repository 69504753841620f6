use michelangelo::strip::strip_indices;

#[test]
fn equal_runs_zig_zag() {
    assert_eq!(
        strip_indices(0, 4, 4, 4, false),
        vec![0, 4, 1, 1, 4, 5, 1, 5, 2, 2, 5, 6, 2, 6, 3, 3, 6, 7]
    );
}

#[test]
fn equal_runs_reversed() {
    assert_eq!(
        strip_indices(0, 4, 4, 4, true),
        vec![0, 7, 1, 1, 7, 6, 1, 6, 2, 2, 6, 5, 2, 5, 3, 3, 5, 4]
    );
}

#[test]
fn short_right_run_is_held_on_its_last_vertex() {
    assert_eq!(strip_indices(0, 3, 3, 2, false), vec![0, 3, 1, 1, 3, 4, 1, 4, 2, 2, 4, 4]);
    assert_eq!(strip_indices(0, 4, 4, 1, false), vec![0, 4, 1, 1, 4, 4, 1, 4, 2, 2, 4, 4, 2, 4, 3, 3, 4, 4]);
}

#[test]
fn short_right_run_reversed_is_held_on_its_first_vertex() {
    assert_eq!(strip_indices(0, 4, 4, 2, true), vec![0, 5, 1, 1, 5, 4, 1, 4, 2, 2, 4, 4, 2, 4, 3, 3, 4, 4]);
}

#[test]
fn long_right_run_is_not_used_up() {
    assert_eq!(strip_indices(0, 2, 2, 5, false), vec![0, 2, 1, 1, 2, 3]);
    assert_eq!(strip_indices(0, 2, 2, 5, true), vec![0, 6, 1, 1, 6, 5]);
}

#[test]
fn runs_may_start_anywhere() {
    assert_eq!(strip_indices(10, 3, 20, 3, false), vec![10, 20, 11, 11, 20, 21, 11, 21, 12, 12, 21, 22]);
    assert_eq!(strip_indices(65533, 3, 0, 3, true), vec![65533, 2, 65534, 65534, 2, 1, 65534, 1, 65535, 65535, 1, 0]);
}

#[test]
fn left_run_without_a_step_gives_no_triangle() {
    assert!(strip_indices(0, 1, 1, 4, false).is_empty());
    assert!(strip_indices(0, 0, 0, 0, true).is_empty());
    assert!(strip_indices(7, 1, 0, 0, false).is_empty());
}

#[test]
fn six_indices_for_each_step() {
    for left_len in 2..40 {
        for right_len in 1..10 {
            let indices = strip_indices(0, left_len, left_len, right_len, left_len % 2 == 0);
            assert_eq!(indices.len(), 6 * (left_len - 1));
            assert!(indices.iter().all(|i| (*i as usize) < left_len + right_len));
        }
    }
}

#[test]
fn reversed_strip_mirrors_the_right_run() {
    let forward = strip_indices(0, 6, 6, 6, false);
    let backward = strip_indices(0, 6, 6, 6, true);
    for k in 0..forward.len() {
        if forward[k] < 6 {
            assert_eq!(backward[k], forward[k]);
        } else {
            let step = k / 6;
            let position = if k % 6 == 5 { step + 1 } else { step };
            assert_eq!(forward[k] as usize, 6 + position);
            assert_eq!(backward[k] as usize, 6 + 5 - position);
        }
    }
}
