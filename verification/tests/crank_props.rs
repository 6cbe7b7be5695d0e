use crank_scheduler::crank::{Crank, QueueEntry, SETTLE_OP_CODE};
use crank_scheduler::resource::ResourceHandle;

fn h(id: u64) -> ResourceHandle {
    ResourceHandle { id }
}

fn crank(limit: u16) -> Crank {
    Crank::new(
        h(1),
        h(2),
        "crank-a".to_string(),
        limit,
        h(3),
        h(4),
        h(5),
        h(6),
        h(7),
        h(8),
    )
}

#[test]
fn new_crank_mirrors_its_arguments() {
    let c = crank(25);
    assert_eq!(c.authority, h(1));
    assert_eq!(c.event_queue, h(2));
    assert_eq!(c.id, "crank-a");
    assert_eq!(c.limit, 25);
    assert_eq!(c.market, h(3));
    assert_eq!(c.mint_a_vault, h(4));
    assert_eq!(c.mint_a_wallet, h(5));
    assert_eq!(c.mint_b_vault, h(6));
    assert_eq!(c.mint_b_wallet, h(7));
    assert_eq!(c.vault_signer, h(8));
    assert_eq!(c.open_orders.len(), 0);
}

#[test]
fn three_drains_of_a_dozen_split_five_five_two() {
    let mut c = crank(5);
    let mut queue: Vec<QueueEntry> = (100..112).map(|id| QueueEntry { counterparty: h(id) }).collect();

    let mut open_lens = Vec::new();
    let mut drained = Vec::new();
    for _ in 0..3 {
        let ops = c.drain(&queue);
        drained.push(ops.len());
        open_lens.push(c.open_orders.len());
        // Settlement removes the drained prefix from the queue.
        queue.drain(..ops.len());
    }
    assert_eq!(drained, vec![5, 5, 2]);
    assert!(queue.is_empty());
    assert_eq!(open_lens, vec![5, 10, 12]);
    assert!(open_lens.windows(2).all(|w| w[0] <= w[1]), "open resources never shrink");
}

#[test]
fn settlement_operations_reference_the_counterparty() {
    let mut c = crank(5);
    let queue = vec![QueueEntry { counterparty: h(200) }];
    let ops = c.drain(&queue);
    assert_eq!(ops.len(), 1);
    assert_eq!(ops[0].code, SETTLE_OP_CODE);
    assert_eq!(
        ops[0].accounts,
        vec![h(2), h(3), h(4), h(5), h(6), h(7), h(8), h(200)]
    );
}

#[test]
fn repeated_counterparties_are_not_duplicated() {
    let mut c = crank(10);
    let queue = vec![
        QueueEntry { counterparty: h(300) },
        QueueEntry { counterparty: h(301) },
        QueueEntry { counterparty: h(300) },
    ];
    let ops = c.drain(&queue);
    assert_eq!(ops.len(), 3, "every entry is settled");
    assert_eq!(c.open_orders.len(), 2, "the open list holds each counterparty once");
    assert_eq!(c.open_orders.get(0), h(300));
    assert_eq!(c.open_orders.get(1), h(301));
}

#[test]
fn draining_an_empty_queue_is_a_no_op() {
    let mut c = crank(5);
    let queue: Vec<QueueEntry> = Vec::new();
    let ops = c.drain(&queue);
    assert!(ops.is_empty());
    assert_eq!(c.open_orders.len(), 0);
}
