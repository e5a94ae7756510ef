use workshadow::ocr::vision::{splitn_char, vision_rows};

fn s(v: &[char]) -> String {
    v.iter().collect()
}

#[test]
fn splitn_matches_std() {
    for text in ["", "a", "a\tb", "\t", "a\tb\tc\td\te\tf\tg", "1\t2\t3\t4\t5\thello\tworld", "x\t\t"] {
        for n in 1..8usize {
            let ours: Vec<String> =
                splitn_char(&text.chars().collect::<Vec<_>>(), '\t', n).iter().map(|p| s(p)).collect();
            let std: Vec<String> = text.splitn(n, '\t').map(|p| p.to_string()).collect();
            assert_eq!(ours, std, "splitn({}) of {:?}", n, text);
        }
    }
}

#[test]
fn vision_rows_keep_tabs_in_text() {
    let out = "0.9\t0.1\t0.2\t0.3\t0.4\tHello\tWorld\n\
               short\tline\n\
               0.5\t0\t0\t1\t1\t   \n\
               0.8\t0.5\t0.5\t0.1\t0.1\t  Bye \r\n";
    let rows = vision_rows(out);
    assert_eq!(rows.len(), 2);
    assert_eq!(rows[0].text, "Hello\tWorld");
    assert_eq!(rows[0].columns[0], "0.9");
    assert_eq!(rows[0].columns.len(), 6);
    assert_eq!(rows[1].text, "Bye");
    assert_eq!(rows[1].columns[4], "0.1");
}

#[test]
fn vision_output_without_rows() {
    assert!(vision_rows("").is_empty());
    assert!(vision_rows("no tabs here\n").is_empty());
}
