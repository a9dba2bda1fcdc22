use handwriter_service::generator::{generator_args, styled_generator_args, svg_path};

#[test]
fn plain_arguments() {
    let p = svg_path("hi");
    assert_eq!(p, "/hi.svg");
    assert_eq!(generator_args("hi", &p), vec!["/handwriter/demo.py", "-i", "hi", "-o", "/hi.svg"]);
}

#[test]
fn styled_arguments_with_defaults() {
    let args = styled_generator_args("hi", "/hi.svg", None, "0.75", None, None);
    assert_eq!(
        args,
        vec!["/handwriter/demo.py", "-i", "hi", "-o", "/hi.svg", "-s", "0", "-b", "0.75", "-c", "blue", "-w", "1"]
    );
}

#[test]
fn styled_arguments_given() {
    let args = styled_generator_args("hi", "/hi.svg", Some(12), "0.5", Some("red".to_string()), Some(3));
    assert_eq!(
        args,
        vec!["/handwriter/demo.py", "-i", "hi", "-o", "/hi.svg", "-s", "12", "-b", "0.5", "-c", "red", "-w", "3"]
    );
}
