// The encoder only accepts `>`. The `Op` enum reflects that with a single
// `Gt` variant, and `from_text` rejects any other operator.

use artxl::tree::ImageProgram;

#[test]
fn parser_rejects_non_gt_operators() {
    for op in ["<", ">=", "<=", "==", "!=", "=>"] {
        let text = format!("Bitdepth 8\n\nif x {} 100\n  - Set 0\n  - Set 255\n", op);
        let result = ImageProgram::from_text(&text);
        assert!(result.is_err(), "parser unexpectedly accepted op '{}'", op,);
        let err = result.unwrap_err();
        assert!(
            err.contains("'>'") || err.contains("operator"),
            "error for op '{}' should reference '>': got: {}",
            op,
            err,
        );
    }
}

#[test]
fn parser_accepts_gt() {
    let text = "Bitdepth 8\n\nif x > 100\n  - Set 0\n  - Set 255\n";
    let prog = ImageProgram::from_text(text).expect("plain `>` program should parse");
    let out = prog.to_text();
    assert!(out.contains("x > 100"), "to_text should emit `>`: {}", out);
}
