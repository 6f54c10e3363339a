//! Reading and writing DIMACS, with the competition meta-comment lines.

use vitri::cnf::{parse_rational_weight, Clause, CnfFormula, Literal, Mode, Original, ShowSet, VarId};
use vitri::cnf::LiteralWeight;
use vitri::error::ErrorKind;
use vitri::cnf::ExactWeight;

fn make_formula(num_vars: u32, clauses: Vec<Vec<i32>>) -> CnfFormula {
    CnfFormula {
        num_vars,
        clauses: clauses
            .into_iter()
            .map(|c| Clause::new(c.into_iter().map(Literal::from_dimacs).collect()))
            .collect(),
    }
}

fn read(text: &str) -> (CnfFormula, vitri::cnf::CnfMeta) {
    CnfFormula::from_dimacs(text.as_bytes()).expect("the text must read")
}

fn refusal(text: &str) -> String {
    let e = CnfFormula::from_dimacs(text.as_bytes()).expect_err("the text must be refused");
    assert_eq!(e.kind(), ErrorKind::Input);
    e.message().to_string()
}

#[test]
fn written_text_reads_back_as_the_same_formula() {
    let f = make_formula(5, vec![vec![1, -2], vec![-3, 4, 5], vec![2]]);
    let text = f.write_dimacs();
    assert_eq!(
        String::from_utf8(text.clone()).unwrap(),
        "p cnf 5 3\n1 -2 0\n-3 4 5 0\n2 0\n"
    );
    let (g, meta) = CnfFormula::from_dimacs(&text).expect("what the writer writes reads");
    assert_eq!(g, f);
    assert_eq!(meta.declared_track(), None);
    assert!(meta.declared_show_vars().is_none());
    assert!(meta.declared_weights().is_none());
}

#[test]
fn a_wider_universe_is_written_as_declared() {
    let f = make_formula(9, vec![vec![1]]);
    let (g, _) = CnfFormula::from_dimacs(&f.write_dimacs()).unwrap();
    assert_eq!(g.num_vars, 9);
    assert_eq!(g, f);
}

#[test]
fn the_clause_body_alone_has_no_problem_line() {
    let f = make_formula(3, vec![vec![-1, 3], vec![2]]);
    assert_eq!(String::from_utf8(f.write_dimacs_clauses()).unwrap(), "-1 3 0\n2 0\n");
}

#[test]
fn a_clause_is_sorted_deduplicated_and_a_tautology_dropped() {
    let (f, _) = read("p cnf 4 3\n3 -1 3 0\n2 -2 4 0\n4 0\n");
    assert_eq!(f, make_formula(4, vec![vec![-1, 3], vec![4]]));
}

#[test]
fn a_final_clause_without_its_zero_is_closed() {
    let (f, _) = read("c a comment\np cnf 3 2\n1 2 0\n-3");
    assert_eq!(f, make_formula(3, vec![vec![1, 2], vec![-3]]));
}

#[test]
fn a_lone_zero_is_the_empty_clause() {
    let (f, _) = read("p cnf 2 2\n1 0\n0\n");
    assert_eq!(f.clauses.len(), 2);
    assert!(f.clauses[1].literals.is_empty());
}

#[test]
fn the_end_marker_and_weight_lines_of_other_formats_are_skipped() {
    let (f, _) = read("p cnf 2 1\nw 1 0.5\n1 2 0\n0.3 0.7\n%\n5 0\n");
    assert_eq!(f, make_formula(2, vec![vec![1, 2]]));
}

#[test]
fn meta_comments_declare_track_show_set_and_weights() {
    let (f, meta) = read("c t pwmc\np cnf 3 1\nc p show 3 1 0\nc p weight 1 0.5 0\nc p weight -1 2/4 0\n1 2 3 0\n");
    assert_eq!(f.num_vars, 3);
    assert_eq!(meta.declared_track(), Some(Mode::Pwmc));
    assert_eq!(meta.mode(), Mode::Pwmc);
    let show = meta.declared_show_vars().expect("a show line was read");
    assert_eq!(show.as_dimacs(), &[1, 3]);
    let weights = meta.declared_weights().expect("weight lines were read");
    assert_eq!(weights.get(1).expect("literal 1 is weighted").spelling(), "1/2");
    assert_eq!(weights.get(-1).expect("literal -1 is weighted").spelling(), "1/2");
    assert!(weights.get(2).is_none());
}

#[test]
fn a_file_without_meta_lines_is_plain_model_counting() {
    let (_, meta) = read("p cnf 1 1\n1 0\n");
    assert_eq!(meta.declared_track(), None);
    assert_eq!(meta.mode(), Mode::Mc);
}

#[test]
fn an_empty_show_line_declares_an_empty_set() {
    let (_, meta) = read("p cnf 2 0\nc p show 0\n");
    assert!(meta.declared_show_vars().expect("declared").is_empty());
}

#[test]
fn clauses_without_a_problem_line_are_refused() {
    assert_eq!(refusal("1 2 0\n"), "Missing problem line");
}

#[test]
fn an_id_beyond_the_declared_count_is_refused_naming_the_widest() {
    assert_eq!(
        refusal("p cnf 3 2\n1 -5 0\n2 4 0\n"),
        "line 2: clause literal -5 exceeds the declared variable count 3"
    );
    assert_eq!(
        refusal("p cnf 2 0\nc p show 1 7 0\n"),
        "line 2: show var 7 exceeds the declared variable count 2"
    );
}

#[test]
fn malformed_lines_are_refused_with_their_line() {
    assert_eq!(refusal("p cnf 2 1\n1 x 0\n"), "line 2: invalid token in clause data: \"x\"");
    assert_eq!(refusal("p dnf 2 1\n"), "line 1: invalid problem line: p dnf 2 1");
    assert_eq!(refusal("p cnf -2 1\n"), "line 1: invalid variable count: -2");
    assert_eq!(refusal("c t xyz\np cnf 1 0\n"), "line 1: unknown problem type: xyz");
    assert_eq!(refusal("c t compile\n"), "line 1: unknown problem type: compile");
    assert_eq!(refusal("p cnf 2 0\nc p show -1 0\n"), "line 2: negative show var: -1");
    assert_eq!(refusal("p cnf 2 0\nc p weight 0 1 0\n"), "line 2: weight on literal 0");
}

#[test]
fn the_header_writer_puts_meta_lines_between_problem_line_and_clauses() {
    let f = make_formula(3, vec![vec![1, -3]]);
    let show: ShowSet<Original> = ShowSet::from_dimacs_ids(&[3, 1]).unwrap();
    let weights = vec![
        LiteralWeight { literal: 1, weight: "1/2".to_string() },
        LiteralWeight { literal: -1, weight: "1/2".to_string() },
    ];
    let text = f.write_dimacs_with_header(Some(Mode::Pwmc), Some(&show), Some(weights.as_slice()));
    let text = String::from_utf8(text).unwrap();
    assert_eq!(
        text,
        "p cnf 3 1\nc t pwmc\nc p show 1 3 0\nc p weight 1 1/2 0\nc p weight -1 1/2 0\n1 -3 0\n"
    );
    let (g, meta) = CnfFormula::from_dimacs(text.as_bytes()).unwrap();
    assert_eq!(g, f);
    assert_eq!(meta.declared_track(), Some(Mode::Pwmc));
    assert_eq!(meta.declared_show_vars().unwrap().as_dimacs(), &[1, 3]);

    let bare = f.write_dimacs_with_header::<Original>(None, None, None);
    assert_eq!(bare, f.write_dimacs());
}

#[test]
fn weights_are_read_exactly_and_spelt_in_lowest_terms() {
    assert_eq!(parse_rational_weight("2/4").unwrap().spelling(), "1/2");
    assert_eq!(parse_rational_weight(" 0.25 ").unwrap().spelling(), "1/4");
    assert_eq!(parse_rational_weight("1.5e1").unwrap().spelling(), "15/1");
    assert_eq!(parse_rational_weight("-3").unwrap().spelling(), "-3/1");
    assert_eq!(parse_rational_weight("6/-4").unwrap().spelling(), "-3/2");
    let e = parse_rational_weight("1/0").expect_err("a zero denominator is refused");
    assert_eq!(e.kind(), ErrorKind::Input);
    assert!(parse_rational_weight("abc").is_err());
}

#[test]
fn a_literal_is_its_dimacs_integer() {
    for n in [1, -1, 7, -42, i32::MAX, -i32::MAX] {
        assert_eq!(Literal::from_dimacs(n).to_dimacs(), n);
    }
    let l = Literal::from_dimacs(-3);
    assert!(!l.positive);
    assert_eq!(l.negated().negated(), l);
    assert_eq!(l.negated(), Literal::pos(VarId::from_dimacs(3)));
    assert_eq!(VarId::new(0), None);
    assert_eq!(VarId::try_from_dimacs(i32::MIN), None);
    let v = VarId::new(5).unwrap();
    assert_eq!(v.idx(), 4);
    assert_eq!(VarId::from_idx(v.idx()), v);
    assert_eq!(VarId::all(3).iter().map(|v| v.get()).collect::<Vec<_>>(), vec![1, 2, 3]);
}

#[test]
fn a_weight_is_rational_unless_its_denominator_is_zero() {
    assert!(parse_rational_weight("3/7").unwrap().is_rational());
    let zero = ExactWeight { negative: false, numerator: b"1".to_vec(), denominator: b"00".to_vec() };
    assert!(!zero.is_rational());
    let letters = ExactWeight { negative: false, numerator: b"x".to_vec(), denominator: b"1".to_vec() };
    assert!(!letters.is_rational());
}

#[test]
fn a_line_that_is_not_utf8_refuses_the_file() {
    let mut text = b"p cnf 2 1\n1 2 0\nc ".to_vec();
    text.push(0xff);
    text.extend_from_slice(b"\n");
    let e = CnfFormula::from_dimacs(&text).expect_err("invalid UTF-8 is refused");
    assert_eq!(e.kind(), ErrorKind::Input);
    assert_eq!(e.message(), "stream did not contain valid UTF-8");
    // An error on an earlier line is the one reported.
    let mut text = b"p cnf 2 1\n1 x 0\n".to_vec();
    text.extend_from_slice(&[0xc3, 0x28, b'\n']);
    assert_eq!(
        CnfFormula::from_dimacs(&text).expect_err("refused").message(),
        "line 2: invalid token in clause data: \"x\""
    );
    // Nothing after the end marker is read.
    let mut text = b"p cnf 1 1\n1 0\n%\n".to_vec();
    text.push(0xfe);
    assert!(CnfFormula::from_dimacs(&text).is_ok());
    // Well-formed multi-byte text in a comment is accepted.
    assert!(CnfFormula::from_dimacs("c caf\u{e9} \u{1f600}\np cnf 1 1\n1 0\n".as_bytes()).is_ok());
}

#[test]
fn unicode_whitespace_separates_tokens() {
    let (f, _) = read("p\u{a0}cnf 3\u{3000}2\n1\u{2003}-2 0\n\u{85}3\u{a0}0\u{2029}\n");
    assert_eq!(f.num_vars, 3);
    assert_eq!(f.clauses.len(), 2);
    assert_eq!(f.clauses[0].literals, vec![Literal::from_dimacs(1), Literal::from_dimacs(-2)]);
    assert_eq!(f.clauses[1].literals, vec![Literal::from_dimacs(3)]);
    let (_, meta) = read("p cnf 2 0\nc\u{a0}p show\u{202f}2 0\n");
    assert_eq!(meta.declared_show_vars().expect("a show set").as_dimacs(), &[2u32][..]);
    assert_eq!(
        parse_rational_weight("\u{a0}1 /\u{2002}4\u{3000}").unwrap().spelling(),
        parse_rational_weight("1/4").unwrap().spelling()
    );
}

#[test]
fn control_characters_are_quoted_as_debug_writes_them() {
    assert_eq!(
        refusal("p cnf 2 1\n1 \u{1}x 0\n"),
        "line 2: invalid token in clause data: \"\\u{1}x\""
    );
    assert_eq!(
        refusal("p cnf 2 1\n1 a\"\\\u{7f} 0\n"),
        "line 2: invalid token in clause data: \"a\\\"\\\\\\u{7f}\""
    );
    assert_eq!(refusal("c t m\u{7f}\n"), "line 1: unknown problem type: m\u{7f}");
}
