use tuishark::hexdump::{largest_pow2_le, BytePool};
use tuishark::nav::StatefulTree;
use tuishark::strfmt::{ipaddr_to_string, mac_to_string, push_dec};
use tuishark::tree::{LayerTreeItem, PacketTreeItem};

fn layer(label: &str, fields: Vec<&str>) -> LayerTreeItem {
    LayerTreeItem {
        label: label.to_string(),
        fields: fields.into_iter().map(|f| f.to_string()).collect(),
    }
}

fn sample_items() -> Vec<PacketTreeItem> {
    vec![
        PacketTreeItem {
            label: "Packet Num 0 [ 20B ]".to_string(),
            layers: vec![
                layer("Ethernet", vec!["Ethertype: IPV4"]),
                layer("Undecoded", vec![]),
            ],
        },
        PacketTreeItem {
            label: "Packet Num 1 [ 5B ]".to_string(),
            layers: vec![layer("Undecoded", vec![])],
        },
    ]
}

#[test]
fn formatting_helpers() {
    assert_eq!(
        mac_to_string(&[0xde, 0xad, 0xbe, 0xef, 0x00, 0x01]),
        "de:ad:be:ef:00:01"
    );
    assert_eq!(ipaddr_to_string(&[255, 0, 10, 1]), "255.0.10.1");
    let mut s = String::new();
    push_dec(&mut s, 12345);
    push_dec(&mut s, 0);
    assert_eq!(s, "123450");
}

#[test]
fn largest_power_of_two() {
    assert_eq!(largest_pow2_le(1), 1);
    assert_eq!(largest_pow2_le(2), 2);
    assert_eq!(largest_pow2_le(3), 2);
    assert_eq!(largest_pow2_le(15), 8);
    assert_eq!(largest_pow2_le(16), 16);
    assert_eq!(largest_pow2_le(17), 16);
}

#[test]
fn bytepool_basics() {
    let pool = BytePool::from_vec(vec![1, 2, 3]);
    assert_eq!(pool.len(), 3);
    assert_eq!(pool.as_slice(), &[1, 2, 3]);
    assert_eq!(BytePool::new().len(), 0);
}

#[test]
fn hexdump_one_byte_per_line_exact() {
    let pool = BytePool::from_vec(vec![0x41, 0x42]);
    // Width 12 fits exactly one byte column.
    let text = pool.hexdump(12);
    let expected = "        00 |\n\
                    ------------\n\
                    0x0000| 41 | A\n\
                    0x0001| 42 | B\n";
    assert_eq!(text, expected);
}

#[test]
fn hexdump_empty_buffer_has_no_data_rows() {
    let pool = BytePool::from_vec(vec![]);
    let text = pool.hexdump(12);
    assert_eq!(text, "        00 |\n------------\n");
}

#[test]
fn hexdump_pads_final_short_row() {
    // 37 bytes at width 72: 16 bytes per line, 2 full rows + 1 row of 5.
    let bytes: Vec<u8> = (0u8..37).collect();
    let pool = BytePool::from_vec(bytes);
    let text = pool.hexdump(72);
    let lines: Vec<&str> = text.split('\n').collect();
    // header, separator, two full rows (each newline-terminated), final
    // short row without a trailing newline.
    assert_eq!(lines.len(), 5);
    assert!(lines[2].starts_with("0x0000| "));
    assert!(lines[3].starts_with("0x0010| "));
    assert!(lines[4].starts_with("0x0020| "));
    // The short row pads 11 missing byte columns with blank triplets so the
    // ASCII gutter stays aligned with the full rows.
    let gutter_col = "0x0000| ".len() + 16 * 3;
    assert_eq!(&lines[2][gutter_col..gutter_col + 2], "| ");
    assert_eq!(&lines[4][gutter_col..gutter_col + 2], "| ");
    assert_eq!(lines[4].len(), gutter_col + 2 + 5);
}

#[test]
fn hexdump_round_trip_reconstructs_buffer() {
    let bytes: Vec<u8> = (0u8..=255).cycle().take(300).collect();
    let pool = BytePool::from_vec(bytes.clone());
    let width = 40; // bytes per line: (40 - 8) / 4 = 8
    let text = pool.hexdump(width);
    let mut recovered: Vec<u8> = Vec::new();
    for line in text.split('\n').skip(2) {
        if line.is_empty() {
            continue;
        }
        let tokens = &line.as_bytes()[8..];
        for chunk in tokens.chunks(3).take(8) {
            let tok = std::str::from_utf8(&chunk[..2]).unwrap();
            if tok == "  " {
                break;
            }
            if chunk.len() < 3 || chunk[2] != b' ' {
                break;
            }
            recovered.push(u8::from_str_radix(tok, 16).unwrap());
        }
    }
    assert_eq!(recovered, bytes);
}

#[test]
fn hexdump_ascii_gutter_marks_non_printable() {
    let pool = BytePool::from_vec(vec![0x00, 0x1f, 0x20, 0x7e, 0x7f, 0xff]);
    let text = pool.hexdump(12); // one byte per line
    let gutters: Vec<char> = text
        .split('\n')
        .skip(2)
        .filter(|l| !l.is_empty())
        .map(|l| l.chars().last().unwrap())
        .collect();
    assert_eq!(gutters, vec!['.', '.', ' ', '~', '.', '.']);
}

#[test]
fn flatten_shows_only_open_children() {
    let mut tree = StatefulTree::with_items(sample_items());
    let rows = tree.flatten();
    assert_eq!(rows.len(), 2);
    assert_eq!(rows[0].path, vec![0]);
    assert_eq!(rows[0].label, "Packet Num 0 [ 20B ]");
    assert_eq!(rows[0].depth, 0);
    assert!(rows[0].expandable);
    assert_eq!(rows[1].path, vec![1]);

    tree.down(); // select frame 0
    tree.right(); // open it
    let rows = tree.flatten();
    let paths: Vec<Vec<usize>> = rows.iter().map(|r| r.path.clone()).collect();
    assert_eq!(paths, vec![vec![0], vec![0, 0], vec![0, 1], vec![1]]);
    assert_eq!(rows[1].label, "Ethernet");
    assert_eq!(rows[1].depth, 1);
    assert!(rows[1].expandable);
    assert!(!rows[2].expandable);
}

#[test]
fn navigation_scenario_down_right_down() {
    let mut tree = StatefulTree::with_items(sample_items());
    assert!(tree.selected_path.is_empty());
    tree.down();
    assert_eq!(tree.selected_path, vec![0]);
    tree.right(); // opens the frame without moving the selection
    assert_eq!(tree.selected_path, vec![0]);
    tree.down(); // first layer row
    assert_eq!(tree.selected_path, vec![0, 0]);
}

#[test]
fn navigation_right_into_children_and_left_back() {
    let mut tree = StatefulTree::with_items(sample_items());
    tree.down();
    tree.right(); // open frame 0
    tree.right(); // already open: move to first child
    assert_eq!(tree.selected_path, vec![0, 0]);
    tree.right(); // open the Ethernet layer
    assert_eq!(tree.selected_path, vec![0, 0]);
    tree.down(); // its field row
    assert_eq!(tree.selected_path, vec![0, 0, 0]);
    tree.right(); // leaf: no-op
    assert_eq!(tree.selected_path, vec![0, 0, 0]);
    tree.left(); // leaf: move to parent
    assert_eq!(tree.selected_path, vec![0, 0]);
    tree.left(); // open layer: close it, selection stays
    assert_eq!(tree.selected_path, vec![0, 0]);
    let paths: Vec<Vec<usize>> = tree.flatten().iter().map(|r| r.path.clone()).collect();
    assert_eq!(paths, vec![vec![0], vec![0, 0], vec![0, 1], vec![1]]);
    tree.left(); // closed layer: move to frame
    assert_eq!(tree.selected_path, vec![0]);
    tree.left(); // open frame: close it
    assert_eq!(tree.selected_path, vec![0]);
    tree.left(); // closed top-level row: no-op
    assert_eq!(tree.selected_path, vec![0]);
}

#[test]
fn navigation_does_not_wrap() {
    let mut tree = StatefulTree::with_items(sample_items());
    tree.up(); // nothing selected: no-op
    assert!(tree.selected_path.is_empty());
    tree.down();
    tree.up(); // first row: no-op
    assert_eq!(tree.selected_path, vec![0]);
    tree.down();
    assert_eq!(tree.selected_path, vec![1]);
    tree.down(); // last row: no-op
    assert_eq!(tree.selected_path, vec![1]);
}

#[test]
fn navigation_selection_stays_visible() {
    let mut tree = StatefulTree::with_items(sample_items());
    tree.right(); // nothing selected: selects the first row
    assert_eq!(tree.selected_path, vec![0]);
    tree.right();
    tree.down();
    tree.down();
    tree.left();
    tree.up();
    // After any sequence of moves the selection addresses a row of the
    // freshly recomputed flattened view.
    let rows = tree.flatten();
    assert!(rows.iter().any(|r| r.path == tree.selected_path));
}

#[test]
fn hexdump_rounds_bytes_per_line_down_to_power_of_two() {
    // Width 71 would fit 15 byte columns, but the layout keeps columns
    // aligned across resizes by rounding down to a power of two: 8.
    let bytes: Vec<u8> = (0u8..20).collect();
    let pool = BytePool::from_vec(bytes);
    let text = pool.hexdump(71);
    let lines: Vec<&str> = text.split('\n').collect();
    assert!(lines[0].ends_with("07 |"));
    assert_eq!(lines[1].len(), 8 + 4 * 8);
    // 20 bytes at 8 per row: two full rows and one short row of 4, which
    // carries no trailing line break.
    assert_eq!(lines.len(), 5);
    assert!(lines[3].starts_with("0x0008| "));
    assert!(lines[4].starts_with("0x0010| "));
}
