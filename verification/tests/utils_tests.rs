use terminal_cli::{format_in_columns, longest_common_prefix, BufferTerminal};

#[test]
fn test_lcp() {
    {
        let strings = vec![b"p1".to_vec(), b"p1/hello".to_vec()];
        let m = longest_common_prefix(&strings);
        assert_eq!(Some(b"p1".to_vec()), m)
    }

    {
        let strings = vec![b"abcx".to_vec(), b"ab1".to_vec(), b"abb".to_vec(), b"aaa".to_vec()];
        let m = longest_common_prefix(&strings);
        assert_eq!(Some(b"a".to_vec()), m)
    }

    {
        let strings = vec![
            b"abcx".to_vec(),
            b"ab1".to_vec(),
            b"abb".to_vec(),
            b"aaa".to_vec(),
            b"".to_vec(),
        ];
        let m = longest_common_prefix(&strings);
        assert_eq!(None, m)
    }

    {
        let strings = vec![b"abcx".to_vec(), b"ab1".to_vec(), b"abb".to_vec()];
        let m = longest_common_prefix(&strings);
        assert_eq!(Some(b"ab".to_vec()), m)
    }

    {
        let strings: Vec<Vec<u8>> = vec![];
        let m = longest_common_prefix(&strings);
        assert_eq!(None, m)
    }

    {
        let strings = vec![b"".to_vec()];
        let m = longest_common_prefix(&strings);
        assert_eq!(None, m)
    }

    {
        let strings = vec![b"".to_vec(), b"a".to_vec()];
        let m = longest_common_prefix(&strings);
        assert_eq!(None, m)
    }
}

#[test]
fn test_lcp_single_element() {
    let strings = vec![b"hello".to_vec()];
    assert_eq!(Some(b"hello".to_vec()), longest_common_prefix(&strings));
}

#[test]
fn test_lcp_permutation_invariance() {
    // the longest common prefix does not depend on the order of the inputs
    let base = vec![b"abcx".to_vec(), b"ab1".to_vec(), b"abb".to_vec()];
    let perms: Vec<Vec<Vec<u8>>> = vec![
        vec![b"abcx".to_vec(), b"ab1".to_vec(), b"abb".to_vec()],
        vec![b"ab1".to_vec(), b"abcx".to_vec(), b"abb".to_vec()],
        vec![b"ab1".to_vec(), b"abb".to_vec(), b"abcx".to_vec()],
        vec![b"abb".to_vec(), b"ab1".to_vec(), b"abcx".to_vec()],
        vec![b"abb".to_vec(), b"abcx".to_vec(), b"ab1".to_vec()],
        vec![b"abcx".to_vec(), b"abb".to_vec(), b"ab1".to_vec()],
    ];
    let expected = longest_common_prefix(&base);
    for p in perms {
        assert_eq!(expected, longest_common_prefix(&p));
    }
}

#[test]
fn test_column_format() {
    let s = vec![
        b"A1".to_vec(),
        b"A2".to_vec(),
        b"A3".to_vec(),
        b"B1".to_vec(),
        b"B2".to_vec(),
        b"C1".to_vec(),
        b"C2".to_vec(),
    ];
    let mut out = BufferTerminal::new();
    format_in_columns(&s, 26, 10, b"\r\n", &mut out).unwrap();
    assert_eq!(
        b"A1          B1          C2\r\nA2          B2          \r\nA3          C1          \r\n"
            .to_vec(),
        *out.bytes()
    );
}

#[test]
fn test_column_format_empty() {
    let s: Vec<Vec<u8>> = vec![];
    let mut out = BufferTerminal::new();
    format_in_columns(&s, 26, 10, b"\r\n", &mut out).unwrap();
    assert_eq!(b"".to_vec(), *out.bytes());
}

#[test]
fn test_column_format_wide_entry() {
    // an entry longer than the width gets a row of its own
    let s = vec![b"0123456789".to_vec(), b"x".to_vec()];
    let mut out = BufferTerminal::new();
    format_in_columns(&s, 4, 1, b"\n", &mut out).unwrap();
    assert_eq!(b"0123456789\nx\n".to_vec(), *out.bytes());
}
