use std::collections::HashMap;

use roulette::game::{corner_result, line_result, return_winning_numbers, CornerType, GameResult, LineType};

#[test]
fn test_return_winning_numbers() {
    let mut test_cases: HashMap<u32, Vec<GameResult>> = HashMap::new();

    test_cases.insert(0, vec![GameResult::Exact { num: 0 }]);

    for i in 1..=36 {
        let red_numbers = [
            1, 3, 5, 7, 9, 12, 14, 16, 18, 19, 21, 23, 25, 27, 30, 32, 34, 36,
        ];
        let is_red = red_numbers.contains(&i);
        let is_even = i % 2 == 0;
        let range = match i {
            1..=12 => GameResult::Range1to12,
            13..=24 => GameResult::Range13to24,
            25..=36 => GameResult::Range25to36,
            _ => unreachable!(),
        };

        let range2to1 = match i % 3 {
            1 => GameResult::Range2to1First,
            2 => GameResult::Range2to1Second,
            0 => GameResult::Range2to1Third,
            _ => unreachable!(),
        };

        let lines: Vec<GameResult> = {
            let mut v = Vec::new();

            if i < 36 && i % 3 != 0 {
                v.push(GameResult::Line { nums: (i, i + 1) });
            }
            if i > 3 {
                v.push(GameResult::Line { nums: (i - 3, i) });
            }
            if i < 34 {
                v.push(GameResult::Line { nums: (i, i + 3) });
            }
            if i > 1 && i % 3 != 1 {
                v.push(GameResult::Line { nums: (i - 1, i) });
            }

            v
        };

        let corners: Vec<GameResult> = {
            let mut v = Vec::new();

            if i % 3 != 0 && i <= 33 {
                v.push(GameResult::Corner { nums: (i, i + 1, i + 3, i + 4) });
            }
            if i % 3 != 1 && i <= 33 {
                v.push(GameResult::Corner { nums: (i, i - 1, i + 3, i + 2) });
            }
            if i % 3 != 0 && i >= 4 {
                v.push(GameResult::Corner { nums: (i, i + 1, i - 3, i - 2) });
            }
            if i % 3 != 1 && i >= 5 {
                v.push(GameResult::Corner { nums: (i, i - 1, i - 3, i - 4) });
            }

            v
        };

        let mut outcomes = vec![
            GameResult::Exact { num: i },
            range,
            if is_red { GameResult::Red } else { GameResult::Black },
            if is_even { GameResult::Even } else { GameResult::Odd },
            range2to1,
        ];

        outcomes.extend(lines);
        outcomes.extend(corners);

        if i <= 18 {
            outcomes.push(GameResult::Range1to18);
        } else {
            outcomes.push(GameResult::Range19to36);
        }

        test_cases.insert(i, outcomes);
    }

    for (roll_result, expected_outcomes) in test_cases.iter() {
        let winning_numbers = return_winning_numbers(*roll_result);
        if winning_numbers != *expected_outcomes {
            let differences = winning_numbers
                .iter()
                .filter(|&g| !expected_outcomes.contains(g))
                .collect::<Vec<&GameResult>>();
            if !differences.is_empty() {
                println!("Test case failed:");
                println!("\tExpected from test: {:?}", expected_outcomes);
                println!("\tReturn from contract: {:?}", winning_numbers);
                println!("\tDifferences: \n\t\t{:?}", differences);
                panic!("There are differences between expected and returned results");
            }

            let differences2 = expected_outcomes
                .iter()
                .filter(|&g| !winning_numbers.contains(g))
                .collect::<Vec<&GameResult>>();
            if !differences2.is_empty() {
                println!("Test case failed:");
                println!("\tExpected from test: {:?}", expected_outcomes);
                println!("\tReturn from contract: {:?}", winning_numbers);
                println!("\tDifferences: \n\t\t{:?}", differences2);
                panic!("There are differences between expected and returned results");
            }
        }
    }
}

#[test]
fn winning_numbers_have_no_repeats_and_right_sizes() {
    // zero wins only the exact bet; a middle-column cell wins 14 bets.
    assert_eq!(return_winning_numbers(0).len(), 1);
    let fifteen = return_winning_numbers(15);
    // 15: exact, odd, low, third column, 2 corners, right line, over+under, dozen 13-24, black
    assert_eq!(fifteen.len(), 11);
    for i in 0..fifteen.len() {
        for j in 0..fifteen.len() {
            if i != j {
                assert!(fifteen[i] != fifteen[j]);
            }
        }
    }
    assert!(fifteen.contains(&GameResult::Black));
    assert!(!fifteen.contains(&GameResult::Red));
    assert!(fifteen.contains(&GameResult::Corner { nums: (11, 12, 14, 15) }));
    assert!(!fifteen.contains(&GameResult::Corner { nums: (15, 16, 18, 19) }));
    assert_eq!(return_winning_numbers(17).len(), 14);
}

#[test]
fn equal_bets_ignore_number_order() {
    assert_eq!(GameResult::Line { nums: (1, 2) }, GameResult::Line { nums: (2, 1) });
    assert_ne!(GameResult::Line { nums: (1, 2) }, GameResult::Line { nums: (1, 4) });
    assert_eq!(
        GameResult::Corner { nums: (1, 2, 4, 5) },
        GameResult::Corner { nums: (5, 4, 2, 1) }
    );
    assert_ne!(
        GameResult::Corner { nums: (1, 1, 4, 5) },
        GameResult::Corner { nums: (1, 4, 5, 5) }
    );
    assert_ne!(GameResult::Exact { num: 1 }, GameResult::Exact { num: 2 });
    assert_ne!(GameResult::Red, GameResult::Black);
    assert_eq!(GameResult::Even, GameResult::Even);
    // equal bets are judged alike
    let a = GameResult::Corner { nums: (1, 2, 4, 5) };
    let b = GameResult::Corner { nums: (5, 4, 2, 1) };
    assert_eq!(a.validate(), b.validate());
    assert_eq!(a.payout(), b.payout());
    assert_eq!(return_winning_numbers(4).contains(&a), return_winning_numbers(4).contains(&b));
}

#[test]
fn corner_and_line_results() {
    assert_eq!(
        format!("{:?}", corner_result(5, CornerType::BottomLeft)),
        format!("{:?}", GameResult::Corner { nums: (5, 8, 4, 7) })
    );
    assert_eq!(
        format!("{:?}", corner_result(5, CornerType::BottomRight)),
        format!("{:?}", GameResult::Corner { nums: (5, 8, 6, 9) })
    );
    assert_eq!(
        format!("{:?}", corner_result(5, CornerType::TopLeft)),
        format!("{:?}", GameResult::Corner { nums: (5, 4, 2, 1) })
    );
    assert_eq!(
        format!("{:?}", corner_result(5, CornerType::TopRight)),
        format!("{:?}", GameResult::Corner { nums: (5, 6, 2, 3) })
    );
    assert_eq!(
        format!("{:?}", line_result(5, LineType::Over)),
        format!("{:?}", GameResult::Line { nums: (5, 2) })
    );
    assert_eq!(
        format!("{:?}", line_result(5, LineType::Under)),
        format!("{:?}", GameResult::Line { nums: (5, 8) })
    );
    assert_eq!(
        format!("{:?}", line_result(5, LineType::Left)),
        format!("{:?}", GameResult::Line { nums: (5, 6) })
    );
    assert_eq!(
        format!("{:?}", line_result(5, LineType::Right)),
        format!("{:?}", GameResult::Line { nums: (5, 4) })
    );
}

#[test]
fn bets_validate_and_pay() {
    assert!(GameResult::Exact { num: 36 }.validate());
    assert!(!GameResult::Exact { num: 37 }.validate());
    assert!(GameResult::Line { nums: (2, 3) }.validate());
    assert!(GameResult::Line { nums: (3, 6) }.validate());
    assert!(!GameResult::Line { nums: (3, 4) }.validate());
    assert!(!GameResult::Line { nums: (0, 1) }.validate());
    assert!(!GameResult::Line { nums: (34, 37) }.validate());
    assert!(GameResult::Corner { nums: (5, 9, 6, 8) }.validate());
    assert!(!GameResult::Corner { nums: (3, 4, 6, 7) }.validate());
    assert!(!GameResult::Corner { nums: (1, 2, 4, 4) }.validate());
    assert!(GameResult::Red.validate());
    assert_eq!(GameResult::Exact { num: 3 }.payout(), 36);
    assert_eq!(GameResult::Line { nums: (1, 2) }.payout(), 18);
    assert_eq!(GameResult::Corner { nums: (1, 2, 4, 5) }.payout(), 9);
    assert_eq!(GameResult::Range13to24.payout(), 3);
    assert_eq!(GameResult::Range2to1First.payout(), 3);
    assert_eq!(GameResult::Odd.payout(), 2);
    assert_eq!(GameResult::Black.payout(), 2);
}

#[test]
fn winning_numbers_come_in_listing_order() {
    let one = return_winning_numbers(1);
    assert_eq!(
        format!("{:?}", one),
        format!(
            "{:?}",
            vec![
                GameResult::Exact { num: 1 },
                GameResult::Odd,
                GameResult::Range1to18,
                GameResult::Range2to1First,
                GameResult::Corner { nums: (1, 4, 2, 5) },
                GameResult::Line { nums: (1, 2) },
                GameResult::Line { nums: (1, 4) },
                GameResult::Range1to12,
                GameResult::Red,
            ]
        )
    );
}
