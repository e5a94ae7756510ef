use workshadow::ocr::tsv::{join_with_spaces, lines, split_char, tesseract_words};

fn s(v: &[char]) -> String {
    v.iter().collect()
}

#[test]
fn tesseract_words_from_tsv() {
    let tsv = "level\tpage_num\tblock_num\tpar_num\tline_num\tword_num\tleft\ttop\twidth\theight\tconf\ttext\n\
               5\t1\t1\t1\t1\t1\t100\t50\t200\t30\t95\tHello\n\
               5\t1\t1\t1\t1\t2\t320\t50\t200\t30\t88\tWorld\n";
    let words = tesseract_words(tsv);
    assert_eq!(words.len(), 2);
    assert_eq!(words[0].text, "Hello");
    assert_eq!(words[0].columns[6], "100");
    assert_eq!(words[1].columns[10], "88");
    let texts: Vec<String> = words.iter().map(|w| w.text.clone()).collect();
    assert_eq!(join_with_spaces(&texts), "Hello World");
}

#[test]
fn rows_without_text_or_columns_are_skipped() {
    let tsv = "header\n1\t1\t1\t1\t1\t0\t0\t0\t10\t10\t-1\t \n\
               short\trow\n\
               5\t1\t1\t1\t1\t1\t0\t0\t1\t1\t90\t  padded  \r\n";
    let words = tesseract_words(tsv);
    assert_eq!(words.len(), 1);
    assert_eq!(words[0].text, "padded");
}

#[test]
fn empty_tsv_has_no_words() {
    assert!(tesseract_words("").is_empty());
    assert!(tesseract_words("only a header").is_empty());
}

#[test]
fn lines_match_std() {
    for text in ["", "a", "a\n", "a\nb", "\n", "\n\n", "a\r\nb\r\n", "x\r", "a\n\nb"] {
        let ours: Vec<String> = lines(&text.chars().collect::<Vec<_>>()).iter().map(|l| s(l)).collect();
        let std: Vec<String> = text.lines().map(|l| l.to_string()).collect();
        assert_eq!(ours, std, "lines of {:?}", text);
    }
}

#[test]
fn split_matches_std() {
    for text in ["", "a", "a\tb", "\t", "a\t\tb\t"] {
        let ours: Vec<String> =
            split_char(&text.chars().collect::<Vec<_>>(), '\t').iter().map(|l| s(l)).collect();
        let std: Vec<String> = text.split('\t').map(|l| l.to_string()).collect();
        assert_eq!(ours, std, "split of {:?}", text);
    }
}

#[test]
fn join_edge_cases() {
    assert_eq!(join_with_spaces(&vec![]), "");
    assert_eq!(join_with_spaces(&vec!["one".to_string()]), "one");
    assert_eq!(join_with_spaces(&vec!["a".to_string(), "".to_string(), "b".to_string()]), "a  b");
}
