use zkcomp::comparator::{generate_checked, request_of_tag, CircuitSpec, ConfigError};
use zkcomp::circuit::build_program;
use zkcomp::emit::emit_program;

#[test]
fn generation_is_deterministic() {
    let first = generate_checked(2, 8).unwrap();
    let second = generate_checked(2, 8).unwrap();
    assert_eq!(first, second);
    let first_range = generate_checked(3, 16).unwrap();
    let second_range = generate_checked(3, 16).unwrap();
    assert_eq!(first_range, second_range);
}

#[test]
fn unsupported_requests_fail_fast() {
    assert_eq!(generate_checked(2, 24).unwrap_err(), ConfigError::UnsupportedBitWidth);
    assert_eq!(generate_checked(5, 8).unwrap_err(), ConfigError::UnsupportedOperandCount);
    assert_eq!(generate_checked(5, 24).unwrap_err(), ConfigError::UnsupportedOperandCount);
    assert!(CircuitSpec::new(2, 24).is_err());
    assert!(CircuitSpec::new(5, 8).is_err());
    assert!(CircuitSpec::new(0, 0).is_err());
    for q in [2usize, 3] {
        for n in [8usize, 16, 32, 64] {
            assert!(CircuitSpec::new(q, n).is_ok());
            assert!(generate_checked(q, n).is_ok());
        }
    }
}

#[test]
fn emitted_text_width_two_comparator() {
    let p = build_program(2, 2);
    let text = String::from_utf8(emit_program(&p)).unwrap();
    let lines = [
        "(in a0 a1 b0 b1)",
        "(out resB_0)",
        "(verify resB_0 b0 b1)",
        "(program",
        "   (= diffB_0 (* (+ a0 (* 250 b0)) (+ a0 (* 250 b0))))",
        "   (= diffB_1 (* (+ a1 (* 250 b1)) (+ a1 (* 250 b1))))",
        "   (= accB_1 (* 1 diffB_1))",
        "   (= accB_i0 (* accB_1 diffB_0))",
        "   (= accB_0 (* 1 (+ accB_1 diffB_0 (* 250 accB_i0))))",
        "   (= fdiffB_1 (* 1 accB_1))",
        "   (= fdiffB_0 (* (+ accB_1 (* 250 accB_0)) (+ accB_1 (* 250 accB_0))))",
        "   (= chkaB_0 (* b0 fdiffB_0))",
        "   (= chkaB_1 (* b1 fdiffB_1))",
        "   (= resB_1 (* 1 chkaB_1))",
        "   (= resB_i0 (* resB_1 chkaB_0))",
        "   (= resB_0 (* 1 (+ resB_1 chkaB_0 (* 250 resB_i0))))",
        ")",
    ];
    let expected = lines.join("\n") + "\n";
    assert_eq!(text, expected);
}

#[test]
fn emitted_header_width_eight() {
    let text = String::from_utf8(generate_checked(2, 8).unwrap()).unwrap();
    let mut lines = text.lines();
    assert_eq!(lines.next().unwrap(), "(in a0 a1 a2 a3 a4 a5 a6 a7 b0 b1 b2 b3 b4 b5 b6 b7)");
    assert_eq!(lines.next().unwrap(), "(out resB_0)");
    assert_eq!(lines.next().unwrap(), "(verify resB_0 b0 b1 b2 b3 b4 b5 b6 b7)");
    assert_eq!(lines.next().unwrap(), "(program");
    assert_eq!(
        lines.next().unwrap(),
        "   (= diffB_0 (* (+ a0 (* 250 b0)) (+ a0 (* 250 b0))))"
    );
    // 3 declarations + "(program" + 7n-2 constraints + ")".
    assert_eq!(text.lines().count(), 4 + 7 * 8 - 2 + 1);
}

#[test]
fn emitted_header_range_mode() {
    let text = String::from_utf8(generate_checked(3, 8).unwrap()).unwrap();
    let mut lines = text.lines();
    assert_eq!(
        lines.next().unwrap(),
        "(in a0 a1 a2 a3 a4 a5 a6 a7 b0 b1 b2 b3 b4 b5 b6 b7 c0 c1 c2 c3 c4 c5 c6 c7)"
    );
    assert_eq!(lines.next().unwrap(), "(out resB_0 resC_0)");
    assert_eq!(
        lines.next().unwrap(),
        "(verify resB_0 b0 b1 b2 b3 b4 b5 b6 b7 resC_0 c0 c1 c2 c3 c4 c5 c6 c7)"
    );
    assert_eq!(text.lines().count(), 4 + 2 * (7 * 8 - 2) + 1);
    assert!(text.contains("   (= diffC_0 (* (+ a0 (* 250 c0)) (+ a0 (* 250 c0))))"));
    assert!(text.contains("   (= chkaC_7 (* c7 fdiffC_7))"));
}

#[test]
fn declared_lists_have_documented_shapes() {
    for (q, n) in [(2usize, 8usize), (2, 16), (3, 8), (3, 32)] {
        let p = build_program(q, n);
        assert_eq!(p.inputs.len(), q * n);
        assert_eq!(p.outputs.len(), q - 1);
        assert_eq!(p.verify.len(), (q - 1) * (n + 1));
        assert_eq!(p.constraints.len(), (q - 1) * (7 * n - 2));
    }
}

#[test]
fn request_tags_name_the_six_requests() {
    let s = request_of_tag("32 RANGE").unwrap();
    assert_eq!((s.operand_count, s.bit_width), (3, 32));
    let s = request_of_tag("16 RANGE").unwrap();
    assert_eq!((s.operand_count, s.bit_width), (3, 16));
    let s = request_of_tag("8 RANGE").unwrap();
    assert_eq!((s.operand_count, s.bit_width), (3, 8));
    let s = request_of_tag("32 COMP").unwrap();
    assert_eq!((s.operand_count, s.bit_width), (2, 32));
    let s = request_of_tag("16 COMP").unwrap();
    assert_eq!((s.operand_count, s.bit_width), (2, 16));
    let s = request_of_tag("8 COMP").unwrap();
    assert_eq!((s.operand_count, s.bit_width), (2, 8));
    assert!(request_of_tag("24 COMP").is_none());
    assert!(request_of_tag("").is_none());
    assert!(request_of_tag("8 comp").is_none());
}
