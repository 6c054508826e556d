use neural_net::index::{resolve_cut, resolve_item, resolve_run};
use neural_net::Error;

#[test]
fn item_offsets_from_the_front() {
    assert_eq!(resolve_item(5, 0), Ok(0));
    assert_eq!(resolve_item(5, 4), Ok(4));
    assert_eq!(resolve_item(5, 5), Err(Error::IndexOutOfBounds));
}

#[test]
fn item_offsets_from_the_back() {
    assert_eq!(resolve_item(5, -1), Ok(4));
    assert_eq!(resolve_item(5, -5), Ok(0));
    assert_eq!(resolve_item(5, -6), Err(Error::IndexOutOfBounds));
}

#[test]
fn nothing_is_named_in_an_empty_container() {
    assert_eq!(resolve_item(0, 0), Err(Error::IndexOutOfBounds));
    assert_eq!(resolve_item(0, -1), Err(Error::IndexOutOfBounds));
    assert_eq!(resolve_cut(0, 0), Ok(0));
}

#[test]
fn extreme_indices_are_out_of_bounds() {
    assert_eq!(resolve_item(3, isize::MIN), Err(Error::IndexOutOfBounds));
    assert_eq!(resolve_item(3, isize::MAX), Err(Error::IndexOutOfBounds));
    assert_eq!(resolve_cut(3, isize::MIN), Err(Error::IndexOutOfBounds));
}

#[test]
fn a_cut_may_stand_behind_the_last_item() {
    assert_eq!(resolve_cut(5, 5), Ok(5));
    assert_eq!(resolve_cut(5, 6), Err(Error::IndexOutOfBounds));
    assert_eq!(resolve_cut(5, -5), Ok(0));
    assert_eq!(resolve_cut(5, -6), Err(Error::IndexOutOfBounds));
}

#[test]
fn range_bounds_wrap_each_on_its_own() {
    assert_eq!(resolve_run(5, 1, 4), Ok((1, 4)));
    assert_eq!(resolve_run(5, -4, -1), Ok((1, 4)));
    assert_eq!(resolve_run(5, 1, -1), Ok((1, 4)));
    assert_eq!(resolve_run(5, -4, 4), Ok((1, 4)));
    assert_eq!(resolve_run(5, 0, 5), Ok((0, 5)));
    assert_eq!(resolve_run(5, 2, 2), Ok((2, 2)));
}

#[test]
fn a_range_that_runs_backwards_is_refused() {
    assert_eq!(resolve_run(5, 3, 2), Err(Error::IndexOutOfBounds));
    assert_eq!(resolve_run(5, -1, 0), Err(Error::IndexOutOfBounds));
    assert_eq!(resolve_run(5, 0, 6), Err(Error::IndexOutOfBounds));
    assert_eq!(resolve_run(5, -6, 2), Err(Error::IndexOutOfBounds));
}
