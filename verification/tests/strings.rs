use xtask::schema::strings::scan;

type Case = (&'static [u8], &'static [(usize, &'static str)]);

#[test]
fn only_maximal_runs_of_five_or_more_printable_bytes_are_recorded() {
    let cases: &[Case] = &[
        (b"", &[]),
        (b"abcd", &[]),
        (b"abcde", &[(0, "abcde")]),
        (b"\0abcde\0", &[(1, "abcde")]),
        (b"abcd\0efghij", &[(5, "efghij")]),
        (b".text\0\0\0`.rdata", &[(0, ".text"), (8, "`.rdata")]),
        (b"one\x01twelve\x7f", &[(4, "twelve")]),
        (b"tail run", &[(0, "tail run")]),
    ];
    for (input, want) in cases {
        let got: Vec<(usize, String)> = scan(input)
            .into_iter()
            .map(|run| (run.offset, String::from_utf8_lossy(run.text).into_owned()))
            .collect();
        let want: Vec<(usize, String)> =
            want.iter().map(|(offset, text)| (*offset, (*text).to_string())).collect();
        assert_eq!(got, want, "input {input:?}");
    }
}

#[test]
fn the_run_boundary_is_the_printable_ascii_range() {
    assert_eq!(scan(b"\x1fabcde\x80").len(), 1);
    assert_eq!(scan(&[0x20; 5]).len(), 1, "space is printable");
    assert_eq!(scan(&[0x7e; 5]).len(), 1, "tilde is printable");
    assert_eq!(scan(&[0x7f; 5]).len(), 0, "delete is not");
}
