use par_io::io::{Request, Transfer, TransferError};

#[test]
fn transfer_asks_for_everything_first() {
    let transfer = Transfer::new(10, 100);
    assert_eq!(transfer.request(), Some(Request { start: 0, len: 10, offset: 100 }));
}

#[test]
fn transfer_goes_on_where_the_last_operation_stopped() {
    let mut transfer = Transfer::new(10, 100);
    assert_eq!(transfer.advance(4), Ok(()));
    assert_eq!(transfer.request(), Some(Request { start: 4, len: 6, offset: 104 }));
    assert_eq!(transfer.advance(1), Ok(()));
    assert_eq!(transfer.request(), Some(Request { start: 5, len: 5, offset: 105 }));
    assert_eq!(transfer.advance(5), Ok(()));
    assert_eq!(transfer.request(), None);
    assert_eq!(transfer, Transfer { len: 10, done: 10, offset: 100 });
}

#[test]
fn empty_transfer_is_complete() {
    assert_eq!(Transfer::new(0, 77).request(), None);
    assert_eq!(Transfer::new(0, u64::MAX).request(), None);
}

#[test]
fn transfer_that_moves_nothing_is_short() {
    let mut transfer = Transfer::new(10, 0);
    transfer.advance(9).unwrap();
    assert_eq!(transfer.advance(0), Err(TransferError::Short));
    assert_eq!(transfer.request(), Some(Request { start: 9, len: 1, offset: 9 }));
}

#[test]
fn transfer_that_moves_too_much_is_refused() {
    let mut transfer = Transfer::new(10, 0);
    transfer.advance(9).unwrap();
    assert_eq!(transfer.advance(2), Err(TransferError::Overrun));
    assert_eq!(transfer.done, 9);
}

#[test]
fn transfer_reaches_the_last_offset() {
    let mut transfer = Transfer::new(5, u64::MAX - 5);
    transfer.advance(4).unwrap();
    assert_eq!(transfer.request(), Some(Request { start: 4, len: 1, offset: u64::MAX - 1 }));
}
