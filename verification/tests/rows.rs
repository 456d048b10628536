use vesktop_voice_overlay::protocol::Participant;
use vesktop_voice_overlay::rows::{ids_distinct, plan_rows, RowOp, ShownRows};

fn entry(id: &str, name: &str) -> (String, Participant) {
    (
        id.to_string(),
        Participant {
            user_id: id.to_string(),
            username: name.to_string(),
            avatar_url: String::new(),
            mute: false,
            deaf: false,
            speaking: false,
            volume: None,
        },
    )
}

fn apply(list: &mut Vec<String>, ops: &[RowOp]) {
    for op in ops {
        match op {
            RowOp::Remove(id) => list.retain(|x| x != id),
            RowOp::Place(id, index) => {
                list.retain(|x| x != id);
                list.insert(*index, id.clone());
            }
        }
    }
}

fn describe(ops: &[RowOp]) -> Vec<String> {
    ops.iter()
        .map(|op| match op {
            RowOp::Remove(id) => format!("-{id}"),
            RowOp::Place(id, index) => format!("{id}@{index}"),
        })
        .collect()
}

#[test]
fn departed_rows_go_and_renamed_rows_move() {
    let current = vec!["me".to_string(), "a".to_string(), "b".to_string()];
    let desired = vec![entry("me", "Me"), entry("b", "Aaron"), entry("c", "Cara")];
    let ops = plan_rows(&current, &desired);
    assert_eq!(describe(&ops), ["-a", "me@0", "b@1", "c@2"]);
    let mut list = current.clone();
    apply(&mut list, &ops);
    assert_eq!(list, ["me", "b", "c"]);
}

#[test]
fn plan_from_empty_list_builds_every_row() {
    let desired = vec![entry("me", "Me"), entry("x", "Xena")];
    let ops = plan_rows(&Vec::new(), &desired);
    assert_eq!(describe(&ops), ["me@0", "x@1"]);
}

#[test]
fn empty_selection_removes_every_row() {
    let current = vec!["q".to_string(), "me".to_string()];
    let ops = plan_rows(&current, &Vec::new());
    assert_eq!(describe(&ops), ["-q", "-me"]);
    let mut list = current.clone();
    apply(&mut list, &ops);
    assert!(list.is_empty());
}

#[test]
fn reversed_rows_end_in_selection_order() {
    let current = vec!["c".to_string(), "b".to_string(), "a".to_string()];
    let desired = vec![entry("a", "A"), entry("b", "B"), entry("c", "C")];
    let ops = plan_rows(&current, &desired);
    let mut list = current.clone();
    apply(&mut list, &ops);
    assert_eq!(list, ["a", "b", "c"]);
}

#[test]
fn shown_rows_follow_each_selection_and_reuse_staying_rows() {
    let mut shown = ShownRows::new();
    let first = vec![entry("me", "Me"), entry("a", "Alice"), entry("b", "Bob")];
    let ops = shown.reconcile(&first).expect("no repeated id");
    assert_eq!(describe(&ops), ["me@0", "a@1", "b@2"]);
    assert_eq!(shown.len(), 3);

    let second = vec![entry("me", "Me"), entry("b", "Aaron"), entry("c", "Cara")];
    let ops = shown.reconcile(&second).expect("no repeated id");
    assert_eq!(describe(&ops), ["-a", "me@0", "b@1", "c@2"]);
    assert!(!describe(&ops).contains(&"-b".to_string()), "a staying row is never dropped");

    let third: Vec<(String, Participant)> = Vec::new();
    let ops = shown.reconcile(&third).expect("empty selection");
    assert_eq!(describe(&ops), ["-me", "-b", "-c"]);
    assert_eq!(shown.len(), 0);
}

#[test]
fn selection_repeating_an_id_is_refused() {
    let mut shown = ShownRows::new();
    shown.reconcile(&vec![entry("x", "X")]).expect("no repeated id");
    let repeated = vec![entry("a", "A"), entry("a", "A again")];
    assert!(!ids_distinct(&repeated));
    assert!(shown.reconcile(&repeated).is_none());
    assert_eq!(shown.len(), 1);
    let ops = shown.reconcile(&vec![entry("x", "X")]).expect("no repeated id");
    assert_eq!(describe(&ops), ["x@0"]);
}

#[test]
fn reset_empties_the_shown_rows() {
    let mut shown = ShownRows::new();
    shown.reconcile(&vec![entry("x", "X"), entry("y", "Y")]).expect("no repeated id");
    shown.reset();
    assert_eq!(shown.len(), 0);
    assert!(ids_distinct(&Vec::new()));
}
