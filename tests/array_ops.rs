use streamsql::array::{array, array_agg, array_aggN, array_agg_opt, array_agg_optN, array_append, array_appendN, array_compact_, array_compact_N, array_contains__, array_distinct, array_distinctN, array_mapN_, array_map__, array_maxNN, array_maxN_, array_max_N, array_max__, array_minNN, array_minN_, array_min_N, array_min__, array_prepend, array_prependN, array_remove__, array_repeatNN, array_repeatN_, array_repeat_N, array_repeat__, array_reverseN, array_reverse_, arrays_overlapNvecNNvecN, arrays_overlapNvecNNvec_, arrays_overlapNvec_NvecN, arrays_overlapNvec_Nvec_, arrays_overlap_vecN_vecN, arrays_overlap_vecN_vec_, arrays_overlap_vec__vecN, arrays_overlap_vec__vec_, cardinalityVec, cardinalityVecN, elementNN, elementN_, element_N, indexNNN, indexNN_, indexN_N, indexN__, index_NN, index_N_, index__N, index___, limit, sequence__, sort_array, sort_arrayN};

#[test]
fn map_doubles_each_element() {
    assert_eq!(array_map__(&[1, 2, 3], |x: &i32| x * 2), vec![2, 4, 6]);
    assert_eq!(array_mapN_(&Some(vec![1, 2]), |x: &i32| x + 1), Some(vec![2, 3]));
    assert_eq!(array_mapN_(&None::<Vec<i32>>, |x: &i32| x + 1), None);
    assert_eq!(streamsql::array::map(&[1, 2], |x: &i32| x * 10), vec![10, 20]);
}

#[test]
fn element_variants() {
    assert_eq!(elementN_(Some(vec![7])), Some(7));
    assert_eq!(elementN_::<i32>(None), None);
    assert_eq!(element_N(vec![Some(3)]), Some(3));
    assert_eq!(element_N::<i32>(vec![None]), None);
    assert_eq!(elementNN::<i32>(Some(vec![])), None);
}

#[test]
fn cardinality_counts() {
    assert_eq!(cardinalityVec(vec![1, 2, 3]), 3);
    assert_eq!(cardinalityVecN(Some(vec!['a'])), Some(1));
    assert_eq!(cardinalityVecN::<i32>(None), None);
}

#[test]
fn index_is_zero_based() {
    assert_eq!(index___(vec![10, 20, 30], 0), Some(10));
    assert_eq!(index___(vec![10, 20, 30], 2), Some(30));
    assert_eq!(index___(vec![10, 20, 30], 3), None);
    assert_eq!(index___(vec![10, 20, 30], -1), None);
    assert_eq!(index__N(vec![10, 20], None), None);
    assert_eq!(index_N_(vec![Some(1), None], 1), None);
    assert_eq!(index_NN(vec![Some(1), None], Some(0)), Some(1));
    assert_eq!(indexN__(Some(vec![4, 5]), 1), Some(5));
    assert_eq!(indexN_N(None::<Vec<i32>>, Some(0)), None);
    assert_eq!(indexNN_(Some(vec![Some(8)]), 0), Some(8));
    assert_eq!(indexNNN(Some(vec![Some(8)]), None), None);
}

#[test]
fn limit_and_empty() {
    assert_eq!(limit(&[1, 2, 3], 2), vec![1, 2]);
    assert_eq!(limit(&[1, 2, 3], 0), Vec::<i32>::new());
    assert!(array::<i32>().is_empty());
}

#[test]
fn append_prepend_repeat() {
    assert_eq!(array_append(vec![1], 2), vec![1, 2]);
    assert_eq!(array_appendN(None, 2), None);
    assert_eq!(array_prepend(vec![1], 0), vec![0, 1]);
    assert_eq!(array_prependN(Some(vec![1]), 0), Some(vec![0, 1]));
    assert_eq!(array_repeat__("x", 3), vec!["x", "x", "x"]);
    assert_eq!(array_repeat__(1, -2), Vec::<i32>::new());
    assert_eq!(array_repeatN_(None::<i32>, 2), Some(vec![None, None]));
    assert_eq!(array_repeat_N(1, None), None);
    assert_eq!(array_repeatNN(Some(1), Some(1)), Some(vec![Some(1)]));
}

#[test]
fn remove_contains_distinct() {
    assert_eq!(array_remove__(vec![1, 2, 1, 3], 1), vec![2, 3]);
    assert!(array_contains__(vec![1, 2], 2));
    assert!(!array_contains__(vec![1, 2], 5));
    assert_eq!(array_distinct(vec![3, 1, 3, 2, 1]), vec![3, 1, 2]);
    assert_eq!(array_distinctN(Some(vec![1, 1])), Some(vec![1]));
}

#[test]
fn reverse_and_compact() {
    assert_eq!(array_reverse_(vec![1, 2, 3]), vec![3, 2, 1]);
    assert_eq!(array_reverseN(Some(Vec::<i32>::new())), Some(vec![]));
    assert_eq!(array_compact_(vec![Some(1), None, Some(3)]), vec![1, 3]);
    assert_eq!(array_compact_N::<i32>(None), None);
}

#[test]
fn max_and_min_skip_absent() {
    assert_eq!(array_max__(vec![3, 9, 2]), Some(9));
    assert_eq!(array_min__(vec![3, 9, 2]), Some(2));
    assert_eq!(array_max__(Vec::<i32>::new()), None);
    assert_eq!(array_max_N(vec![None, Some(4), Some(1)]), Some(4));
    assert_eq!(array_min_N(vec![None, Some(4), Some(1)]), Some(1));
    assert_eq!(array_max_N::<i32>(vec![None, None]), None);
    assert_eq!(array_maxN_(Some(vec![1, 5])), Some(5));
    assert_eq!(array_minNN(Some(vec![Some(2), None])), Some(2));
    assert_eq!(array_maxNN::<i32>(None), None);
    assert_eq!(array_minN_::<i32>(None), None);
}

#[test]
fn sorting_both_ways() {
    assert_eq!(sort_array(vec![3, 1, 2, 1], true), vec![1, 1, 2, 3]);
    assert_eq!(sort_array(vec![3, 1, 2, 1], false), vec![3, 2, 1, 1]);
    assert_eq!(sort_arrayN(None::<Vec<i32>>, true), None);
}

#[test]
fn sequence_is_inclusive() {
    assert_eq!(sequence__(2, 5), vec![2, 3, 4, 5]);
    assert_eq!(sequence__(5, 5), vec![5]);
    assert_eq!(sequence__(6, 5), Vec::<i32>::new());
    assert_eq!(sequence__(i32::MAX - 1, i32::MAX), vec![i32::MAX - 1, i32::MAX]);
}

#[test]
fn overlap_three_valued() {
    assert_eq!(arrays_overlapNvec_Nvec_(vec![Some(1), Some(2)], vec![Some(2)]), Some(true));
    assert_eq!(arrays_overlapNvec_Nvec_(vec![Some(1), None], vec![Some(2)]), None);
    assert_eq!(arrays_overlapNvec_Nvec_(vec![Some(1)], vec![Some(2)]), Some(false));
    assert_eq!(arrays_overlapNvec_Nvec_(vec![], vec![None::<i32>]), Some(false));
    assert_eq!(arrays_overlapNvec_NvecN(vec![Some(1)], None), None);
    assert_eq!(arrays_overlapNvecNNvecN(Some(vec![Some(1)]), Some(vec![Some(1)])), Some(true));
    assert_eq!(arrays_overlapNvecNNvec_(None, vec![Some(1)]), None);
    assert!(arrays_overlap_vec__vec_(vec![1, 2], vec![2, 3]));
    assert!(!arrays_overlap_vec__vec_(vec![1], vec![2]));
    assert_eq!(arrays_overlap_vecN_vecN(Some(vec![1]), None), None);
    assert_eq!(arrays_overlap_vec__vecN(vec![1], Some(vec![1])), Some(true));
    assert_eq!(arrays_overlap_vecN_vec_(Some(vec![1]), vec![2]), Some(false));
}

#[test]
fn aggregation_steps() {
    let mut acc = vec![1];
    assert_eq!(array_agg(&mut acc, 5, 3, false, true), vec![1, 5, 5, 5]);
    assert_eq!(acc, vec![1, 5, 5, 5]);
    let mut acc = vec![];
    assert_eq!(array_agg(&mut acc, 5, 3, true, true), vec![5]);
    let mut acc = vec![2];
    assert_eq!(array_agg(&mut acc, 5, 3, true, false), vec![2]);
    let mut acc = Some(vec![]);
    assert_eq!(array_aggN(&mut acc, 'a', 2, false, true), Some(vec!['a', 'a']));
    let mut acc: Option<Vec<i32>> = None;
    assert_eq!(array_aggN(&mut acc, 1, 1, false, true), None);
    let mut acc = vec![Some(1)];
    assert_eq!(array_agg_opt(&mut acc, None, 1, false, true, true), vec![Some(1)]);
    assert_eq!(array_agg_opt(&mut acc, None, 1, false, true, false), vec![Some(1), None]);
    let mut acc = Some(vec![]);
    assert_eq!(array_agg_optN(&mut acc, Some(4), 2, false, true, true), Some(vec![Some(4), Some(4)]));
}
