use red_js_interpreter::CodeIndex;

#[test]
fn starts_at_the_first_step() {
    let c = CodeIndex::new();
    assert_eq!(c.current(), 0);
}

#[test]
fn next_advances_by_one() {
    let mut c = CodeIndex::new();
    assert_eq!(c.next(), 1);
    assert_eq!(c.next(), 2);
    assert_eq!(c.current(), 2);
}

#[test]
fn retry_holds_for_exactly_one_advance() {
    let mut c = CodeIndex::new();
    c.skip(5);
    c.set_retry();
    assert_eq!(c.next(), 5);
    assert_eq!(c.next(), 6);
}

#[test]
fn reset_retry_clears_the_request() {
    let mut c = CodeIndex::new();
    c.set_retry();
    c.reset_retry();
    assert_eq!(c.next(), 1);
}

#[test]
fn reset_goes_back_to_the_start() {
    let mut c = CodeIndex::new();
    c.skip(3);
    c.set_retry();
    c.reset();
    assert_eq!(c.current(), 0);
    assert_eq!(c.next(), 1);
}

#[test]
fn moves_by_signed_and_directed_amounts() {
    let mut c = CodeIndex::new();
    c.move_iamount(7);
    assert_eq!(c.current(), 7);
    c.move_iamount(-3);
    assert_eq!(c.current(), 4);
    c.move_amount(true, 6);
    assert_eq!(c.current(), 10);
    c.move_amount(false, 10);
    assert_eq!(c.current(), 0);
}

#[test]
fn goto_end_passes_every_list() {
    let mut c = CodeIndex::new();
    c.goto_end();
    assert_eq!(c.current(), usize::MAX);
}
