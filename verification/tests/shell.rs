use vidya::shell::{
    expect_display, expect_shell_value, find_card_end, layout_ops, op_count, shell_text, shell_value,
    ShellButton, ShellItem, SpaceSize,
};

fn op(tag: i64, payload: i64) -> i64 {
    payload * 16 + tag
}

#[test]
fn vocabulary() {
    assert_eq!(shell_text(1), "Gleam App");
    assert_eq!(shell_text(4), "−1");
    assert_eq!(shell_text(15), "Painted by Vidya");
    assert_eq!(shell_text(0), "?");
    assert_eq!(shell_text(-3), "?");
}

#[test]
fn op_counts() {
    assert_eq!(op_count(-5), 0);
    assert_eq!(op_count(3), 3);
}

#[test]
fn cards_close_at_their_own_close() {
    let ops = vec![op(8, 0), op(8, 0), op(9, 0), op(9, 0), op(1, 1)];
    assert_eq!(find_card_end(&ops, 1, ops.len()), 3);
    assert_eq!(find_card_end(&ops, 2, ops.len()), 2);
    assert_eq!(find_card_end(&ops, 4, ops.len()), 5);
}

#[test]
fn buttons_share_a_row_until_another_widget() {
    // label 3 (+1), msg 1, primary; then label 4, msg 2.
    let b1 = op(4, 3 + 256 * 1 + 65536);
    let b2 = op(4, 4 + 256 * 2);
    // A negative opcode has a negative tag, which names no widget.
    let ops = vec![op(7, 1), b1, op(0, 0), b2, op(2, 6), op(3, -42), op(3, 42), op(5, 1)];
    let items = layout_ops(&ops, 0, ops.len());
    assert_eq!(
        items,
        vec![
            ShellItem::Header(1),
            ShellItem::Buttons(vec![
                ShellButton { msg: 1, primary: true, label: 3 },
                ShellButton { msg: 2, primary: false, label: 4 },
            ]),
            ShellItem::Body(6),
            ShellItem::Value(42),
            ShellItem::Space(SpaceSize::Sm),
        ]
    );
}

#[test]
fn cards_nest_and_a_stray_close_stops() {
    let ops = vec![op(8, 0), op(1, 12), op(9, 0), op(6, 6), op(9, 0), op(1, 1)];
    let items = layout_ops(&ops, 0, ops.len());
    assert_eq!(
        items,
        vec![
            ShellItem::CardOpen(1),
            ShellItem::Title(12),
            ShellItem::CardClose,
            ShellItem::Status(6),
        ]
    );
}

#[test]
fn an_unclosed_card_takes_the_rest() {
    let ops = vec![op(8, 0), op(2, 2), op(4, 5)];
    let items = layout_ops(&ops, 0, ops.len());
    assert_eq!(
        items,
        vec![
            ShellItem::CardOpen(2),
            ShellItem::Body(2),
            ShellItem::Buttons(vec![ShellButton { msg: 0, primary: false, label: 5 }]),
            ShellItem::CardClose,
        ]
    );
}

/// Card brackets match in the layout of any opcode list.
#[test]
fn card_brackets_always_match() {
    let lists: Vec<Vec<i64>> = vec![
        vec![op(8, 0), op(8, 0), op(2, 1), op(9, 0), op(4, 3), op(9, 0), op(9, 0), op(1, 1)],
        vec![op(9, 0), op(8, 0)],
        vec![op(8, 0), op(8, 0), op(8, 0)],
        vec![op(4, 1), op(8, 0), op(4, 2), op(9, 0), op(4, 3)],
    ];
    for ops in lists {
        let items = layout_ops(&ops, 0, ops.len());
        let mut depth: Vec<usize> = Vec::new();
        for (i, it) in items.iter().enumerate() {
            match it {
                ShellItem::CardOpen(n) => {
                    assert!(matches!(items[i + n + 1], ShellItem::CardClose));
                    depth.push(i + n + 1);
                }
                ShellItem::CardClose => assert_eq!(depth.pop(), Some(i)),
                _ => {}
            }
        }
        assert!(depth.is_empty());
    }
}

#[test]
fn the_value_is_the_first_value_opcode() {
    assert_eq!(shell_value(&vec![op(7, 1), op(3, 5), op(3, 9)]), Ok(5));
    assert_eq!(shell_value(&vec![op(7, 1)]), Err("no TAG_VALUE in view".to_string()));
    assert_eq!(shell_value(&vec![]), Err("no TAG_VALUE in view".to_string()));
}

#[test]
fn scripted_checks_name_the_step() {
    assert_eq!(expect_shell_value(2, 2, "inc"), Ok(()));
    assert_eq!(
        expect_shell_value(1, 2, "inc2"),
        Err("inc2: expected value=2, got 1".to_string())
    );
    assert_eq!(expect_display((46, 0, 0), (46, 0, 0), "12+34"), Ok(()));
    assert_eq!(
        expect_display((12, 1, 0), (34, 1, 0), "34"),
        Err("34: expected display=34 pending=1 err=0, got display=12 pending=1 err=0".to_string())
    );
}
