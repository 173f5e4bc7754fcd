//! Whole-pipeline runs: ordered transactions in, rendered account rows out.
//! Amounts are in units of 1/10000.

use rusty_reckoning::ParseError;
use rusty_reckoning::Transaction;
use rusty_reckoning::TransactionType;
use rusty_reckoning::parse_record;
use rusty_reckoning::render_output;
use rusty_reckoning::run;

/// The example stream: three deposits, one covered withdrawal, and one
/// overdraft that the engine rejects.
fn example_transactions() -> Vec<Transaction> {
    vec![
        Transaction {
            tx_type: TransactionType::Deposit,
            client: 1,
            tx: 1,
            amount: Some(10_000),
        },
        Transaction {
            tx_type: TransactionType::Deposit,
            client: 2,
            tx: 2,
            amount: Some(20_000),
        },
        Transaction {
            tx_type: TransactionType::Deposit,
            client: 1,
            tx: 3,
            amount: Some(20_000),
        },
        Transaction {
            tx_type: TransactionType::Withdrawal,
            client: 1,
            tx: 4,
            amount: Some(15_000),
        },
        Transaction {
            tx_type: TransactionType::Withdrawal,
            client: 2,
            tx: 5,
            amount: Some(30_000),
        },
    ]
}

/// Builds the benchmark stream: per client, 70 deposits of 10·i, then 20
/// withdrawals of 20·i, 5 disputes, 4 resolves, and finally an extra
/// withdrawal (odd clients) or a chargeback (even clients), interleaved
/// round by round across the clients.
fn generate_transactions(num_clients: u16) -> Vec<Transaction> {
    const NUM_DEPOSITS: usize = 70;
    const NUM_WITHDRAWALS: usize = 20;
    const NUM_DISPUTES: usize = 5;
    const NUM_RESOLVES: usize = 4;
    const TOTAL_TX_PER_CLIENT: usize =
        NUM_DEPOSITS + NUM_WITHDRAWALS + NUM_DISPUTES + NUM_RESOLVES + 1;
    const BASE_DEPOSIT_AMOUNT: i64 = 100_000;
    const BASE_WITHDRAWAL_AMOUNT: i64 = 200_000;

    let mut transactions = Vec::new();
    let mut global_tx_counter: u32 = 1;
    for round in 0..TOTAL_TX_PER_CLIENT {
        for client in 1..=num_clients {
            let txn = if round < NUM_DEPOSITS {
                let tx_id = global_tx_counter;
                global_tx_counter += 1;
                Transaction {
                    tx_type: TransactionType::Deposit,
                    client,
                    tx: tx_id,
                    amount: Some(BASE_DEPOSIT_AMOUNT * client as i64),
                }
            } else if round < NUM_DEPOSITS + NUM_WITHDRAWALS {
                let tx_id = global_tx_counter;
                global_tx_counter += 1;
                Transaction {
                    tx_type: TransactionType::Withdrawal,
                    client,
                    tx: tx_id,
                    amount: Some(BASE_WITHDRAWAL_AMOUNT * client as i64),
                }
            } else if round < NUM_DEPOSITS + NUM_WITHDRAWALS + NUM_DISPUTES {
                let dispute_index = round - (NUM_DEPOSITS + NUM_WITHDRAWALS);
                let deposit_tx_id = (dispute_index as u32) * (num_clients as u32) + client as u32;
                Transaction {
                    tx_type: TransactionType::Dispute,
                    client,
                    tx: deposit_tx_id,
                    amount: None,
                }
            } else if round < NUM_DEPOSITS + NUM_WITHDRAWALS + NUM_DISPUTES + NUM_RESOLVES {
                let resolve_index = round - (NUM_DEPOSITS + NUM_WITHDRAWALS + NUM_DISPUTES);
                let deposit_tx_id = (resolve_index as u32) * (num_clients as u32) + client as u32;
                Transaction {
                    tx_type: TransactionType::Resolve,
                    client,
                    tx: deposit_tx_id,
                    amount: None,
                }
            } else if client % 2 == 0 {
                let deposit_tx_id = (NUM_RESOLVES as u32) * (num_clients as u32) + client as u32;
                Transaction {
                    tx_type: TransactionType::Chargeback,
                    client,
                    tx: deposit_tx_id,
                    amount: None,
                }
            } else {
                let tx_id = global_tx_counter;
                global_tx_counter += 1;
                Transaction {
                    tx_type: TransactionType::Withdrawal,
                    client,
                    tx: tx_id,
                    amount: Some(BASE_WITHDRAWAL_AMOUNT * client as i64),
                }
            };
            transactions.push(txn);
        }
    }
    transactions
}

#[test]
fn runner_test_example_input() {
    let output = render_output(&run(&example_transactions()));

    let expected = "client,available,held,total,locked
1,1.5,0,1.5,false
2,2,0,2,false
";
    assert_eq!(String::from_utf8(output).unwrap(), expected);
}

#[test]
fn runner_test_10_clients() {
    let output = render_output(&run(&generate_transactions(10)));

    let expected = "client,available,held,total,locked
1,270,10,280,false
2,580,0,580,true
3,810,30,840,false
4,1160,0,1160,true
5,1350,50,1400,false
6,1740,0,1740,true
7,1890,70,1960,false
8,2320,0,2320,true
9,2430,90,2520,false
10,2900,0,2900,true
";
    assert_eq!(String::from_utf8(output).unwrap(), expected);
}

#[test]
fn runner_test_10000_clients() {
    let output = render_output(&run(&generate_transactions(10000)));

    // Build the expected output from the same arithmetic the stream encodes.
    let mut expected = String::from("client,available,held,total,locked\n");
    for i in 1..=10000u32 {
        if i % 2 == 1 {
            // Odd client: available = 270*i, held = 10*i, total = 280*i, locked false.
            expected.push_str(&format!("{},{},{},{},false\n", i, 270 * i, 10 * i, 280 * i));
        } else {
            // Even client: available = 290*i, held = 0, total = 290*i, locked true.
            expected.push_str(&format!("{},{},{},{},true\n", i, 290 * i, 0, 290 * i));
        }
    }

    assert_eq!(String::from_utf8(output).unwrap(), expected);
}

#[test]
fn test_end_to_end_rows() {
    let rows = [
        "deposit,1,1,1.0",
        "deposit,2,2,2.0",
        "deposit,1,3,2.0",
        "withdrawal,1,4,1.5",
        "withdrawal,2,5,3.0",
    ];
    let mut transactions: Vec<Transaction> = Vec::new();
    for row in rows {
        let fields: Vec<Vec<u8>> = row.split(',').map(|f| f.as_bytes().to_vec()).collect();
        transactions.push(parse_record(&fields).unwrap());
    }

    let output = render_output(&run(&transactions));

    let expected = "client,available,held,total,locked
1,1.5,0,1.5,false
2,2,0,2,false
";
    assert_eq!(String::from_utf8(output).unwrap(), expected);
}

#[test]
fn test_unparsable_row_is_fatal_before_processing() {
    // An unparsable row never reaches the engine: the caller stops the run.
    let fields: Vec<Vec<u8>> = "deposit,1,1,12x4"
        .split(',')
        .map(|f| f.as_bytes().to_vec())
        .collect();
    assert_eq!(parse_record(&fields), Err(ParseError::BadAmount));
}

#[test]
fn test_run_output_is_sorted_by_client() {
    let transactions = vec![
        Transaction {
            tx_type: TransactionType::Deposit,
            client: 500,
            tx: 1,
            amount: Some(10_000),
        },
        Transaction {
            tx_type: TransactionType::Deposit,
            client: 3,
            tx: 2,
            amount: Some(10_000),
        },
        Transaction {
            tx_type: TransactionType::Deposit,
            client: 65535,
            tx: 3,
            amount: Some(10_000),
        },
    ];
    let rows = run(&transactions);
    assert_eq!(rows.len(), 3);
    assert_eq!(rows[0].client, 3);
    assert_eq!(rows[1].client, 500);
    assert_eq!(rows[2].client, 65535);
}
