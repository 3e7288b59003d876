use flurx::output::Output;
use flurx::token::CancellationTree;

#[test]
fn cancelling_parent_cancels_children() {
    let mut tokens = CancellationTree::new();
    let root = tokens.root();
    let child = tokens.child(root);
    let grandchild = tokens.child(child);
    let other = tokens.root();
    assert!(!tokens.is_cancelled(grandchild));
    tokens.cancel(root);
    assert!(tokens.is_cancelled(root));
    assert!(tokens.is_cancelled(child));
    assert!(tokens.is_cancelled(grandchild));
    assert!(!tokens.is_cancelled(other));
}

#[test]
fn cancelling_child_spares_parent() {
    let mut tokens = CancellationTree::new();
    let root = tokens.root();
    let child = tokens.child(root);
    tokens.cancel(child);
    tokens.cancel(child);
    assert!(tokens.is_cancelled(child));
    assert!(!tokens.is_cancelled(root));
}

#[test]
fn child_of_cancelled_token_starts_cancelled() {
    let mut tokens = CancellationTree::new();
    let root = tokens.root();
    tokens.cancel(root);
    let child = tokens.child(root);
    assert!(tokens.is_cancelled(child));
}

#[test]
fn output_is_taken_once() {
    let mut o: Output<u32> = Output::new();
    assert!(!o.is_some());
    o.set(7);
    o.set(9);
    assert!(o.is_some());
    assert_eq!(o.take(), Some(9));
    assert_eq!(o.take(), None);
}
