use nucleus::batch::{check_group_answer, group_by_model};
use nucleus::error::NucleusError;

fn names(ms: &[&str]) -> Vec<String> {
    ms.iter().map(|m| m.to_string()).collect()
}

#[test]
fn groups_follow_first_appearance_and_keep_positions() {
    let groups = group_by_model(&names(&["e5", "bge", "e5", "clip", "bge", "e5"]));
    assert_eq!(
        groups,
        vec![
            ("e5".to_string(), vec![0, 2, 5]),
            ("bge".to_string(), vec![1, 4]),
            ("clip".to_string(), vec![3]),
        ]
    );
}

#[test]
fn every_query_lands_in_exactly_its_models_group() {
    let models = names(&["a", "b", "a", "c", "b"]);
    let groups = group_by_model(&models);
    for (i, m) in models.iter().enumerate() {
        let holding: Vec<&String> = groups.iter().filter(|(_, idx)| idx.contains(&i)).map(|(g, _)| g).collect();
        assert_eq!(holding, vec![m]);
    }
}

#[test]
fn empty_and_single_model_batches() {
    assert!(group_by_model(&names(&[])).is_empty());
    assert_eq!(group_by_model(&names(&["m", "m"])), vec![("m".to_string(), vec![0, 1])]);
}

#[test]
fn a_group_answer_must_match_its_queries() {
    assert!(check_group_answer(2, 2).is_ok());
    assert!(matches!(
        check_group_answer(2, 1),
        Err(NucleusError::Embedding(m)) if m == "batch returned wrong vector count"
    ));
}
