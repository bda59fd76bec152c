use lib::spi_plan::{plan_transaction, SpiOp, SpiStep, TransactionRunner, TxAction};

#[test]
fn register_read_becomes_one_burst_and_one_spin() {
    // Block select, 16-bit address, dummy, one data byte.
    let ops = vec![SpiOp::Write(1), SpiOp::Write(2), SpiOp::Write(1), SpiOp::Read(1)];
    assert_eq!(
        plan_transaction(&ops),
        vec![SpiStep::Burst { first: 0, count: 3, len: 4 }, SpiStep::Blocking(3), SpiStep::FlushBus]
    );
}

#[test]
fn frame_payload_goes_by_dma() {
    let ops = vec![SpiOp::Write(1), SpiOp::Write(2), SpiOp::Write(1), SpiOp::Read(1514)];
    assert_eq!(
        plan_transaction(&ops),
        vec![SpiStep::Burst { first: 0, count: 3, len: 4 }, SpiStep::Dma(3), SpiStep::FlushBus]
    );
}

#[test]
fn register_write_is_a_single_burst() {
    let ops = vec![SpiOp::Write(1), SpiOp::Write(2), SpiOp::Write(1), SpiOp::Write(2)];
    assert_eq!(plan_transaction(&ops), vec![SpiStep::Burst { first: 0, count: 4, len: 6 }, SpiStep::FlushBus]);
}

#[test]
fn write_that_does_not_fit_flushes_then_goes_direct() {
    let ops = vec![SpiOp::Write(10), SpiOp::Write(8), SpiOp::Write(3)];
    assert_eq!(
        plan_transaction(&ops),
        vec![
            SpiStep::Burst { first: 0, count: 1, len: 10 },
            SpiStep::Blocking(1),
            SpiStep::Burst { first: 2, count: 1, len: 3 },
            SpiStep::FlushBus,
        ]
    );
    assert_eq!(plan_transaction(&vec![SpiOp::Write(17)]), vec![SpiStep::Dma(0), SpiStep::FlushBus]);
    assert_eq!(plan_transaction(&vec![SpiOp::Write(16)]), vec![SpiStep::Burst { first: 0, count: 1, len: 16 }, SpiStep::FlushBus]);
}

#[test]
fn transfers_and_delays() {
    let ops = vec![SpiOp::Transfer(4, 30), SpiOp::Transfer(16, 2), SpiOp::TransferInPlace(17), SpiOp::DelayNs(100)];
    assert_eq!(
        plan_transaction(&ops),
        vec![SpiStep::Dma(0), SpiStep::Blocking(1), SpiStep::Dma(2), SpiStep::Delay(3), SpiStep::FlushBus]
    );
}

#[test]
fn empty_writes_send_nothing() {
    assert_eq!(plan_transaction(&vec![SpiOp::Write(0), SpiOp::Write(0)]), vec![SpiStep::FlushBus]);
    assert_eq!(plan_transaction(&vec![]), vec![SpiStep::FlushBus]);
}

#[test]
fn runner_selects_runs_every_step_and_releases() {
    let ops = vec![SpiOp::Write(1), SpiOp::Write(2), SpiOp::Write(1), SpiOp::Read(1)];
    let mut r = TransactionRunner::new(&ops);
    let mut actions = vec![r.advance(true)];
    loop {
        let a = r.advance(true);
        actions.push(a);
        if let TxAction::Finish(_) = a {
            break;
        }
    }
    assert_eq!(
        actions,
        vec![
            TxAction::SelectChip,
            TxAction::Perform(SpiStep::Burst { first: 0, count: 3, len: 4 }),
            TxAction::Perform(SpiStep::Blocking(3)),
            TxAction::Perform(SpiStep::FlushBus),
            TxAction::ReleaseChip,
            TxAction::Finish(true),
        ]
    );
}

#[test]
fn runner_stops_at_the_first_failure_and_still_releases() {
    let ops = vec![SpiOp::Write(1), SpiOp::Read(1514)];
    let mut r = TransactionRunner::new(&ops);
    assert_eq!(r.advance(true), TxAction::SelectChip);
    assert_eq!(r.advance(true), TxAction::Perform(SpiStep::Burst { first: 0, count: 1, len: 1 }));
    assert_eq!(r.advance(true), TxAction::Perform(SpiStep::Dma(1)));
    assert_eq!(r.advance(false), TxAction::ReleaseChip);
    assert_eq!(r.advance(true), TxAction::Finish(false));
    assert_eq!(r.advance(true), TxAction::Finish(false));
}
