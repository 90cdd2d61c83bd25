use tiptop::input::{check_lengths, InputError};

#[test]
fn accepts_lists_of_the_right_length() {
    assert_eq!(check_lengths(None, None, 3), Ok(()));
    assert_eq!(check_lengths(Some(3), None, 3), Ok(()));
    assert_eq!(check_lengths(None, Some(3), 3), Ok(()));
    assert_eq!(check_lengths(Some(3), Some(3), 3), Ok(()));
}

#[test]
fn refuses_costs_of_another_length() {
    assert_eq!(
        check_lengths(Some(2), Some(9), 3),
        Err(InputError::Costs { found: 2, expected: 3 })
    );
}

#[test]
fn refuses_benefits_of_another_length() {
    assert_eq!(
        check_lengths(Some(3), Some(4), 3),
        Err(InputError::Benefits { found: 4, expected: 3 })
    );
}
