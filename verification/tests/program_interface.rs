use html_extractor::{compile, ProgramView};

fn inspect(program: &dyn ProgramView) -> (usize, usize, usize) {
    (
        program.functions().len(),
        program.statements().len(),
        program.requirements().inputs().len(),
    )
}

#[test]
fn runtime_accepts_a_compiled_program_through_its_read_only_interface() {
    let program =
        compile("fun identity(value) { value } title = html.css(\"h1\")!.text()").unwrap();

    assert_eq!(inspect(&program), (1, 1, 1));
    assert_eq!(
        ProgramView::source(&program),
        "fun identity(value) { value } title = html.css(\"h1\")!.text()"
    );
}
