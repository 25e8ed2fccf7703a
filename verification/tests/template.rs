use rss_hacker::template::{prepare_template, Template, TemplateError};

const SCRIPT: &str = "<script src=\"https://cdn.tailwindcss.com\"></script>";

#[test]
fn template_is_split_at_the_body_tag() {
    let template = prepare_template("<html><head><title>t</title></head><body><div id=\"x\"></div></body></html>").unwrap();
    assert_eq!(template.before, format!("<html><head><title>t</title>{}</head><body>", SCRIPT));
    assert_eq!(template.after, "<div id=\"x\"></div></body></html>");
}

#[test]
fn template_without_body_is_refused() {
    assert_eq!(prepare_template("<html><head></head></html>"), Err(TemplateError::MissingBody));
    assert_eq!(prepare_template(""), Err(TemplateError::MissingBody));
    assert_eq!(prepare_template("<body class=\"x\"></body>"), Err(TemplateError::MissingBody));
    assert_eq!(prepare_template("<BODY></BODY>"), Err(TemplateError::MissingBody));
}

#[test]
fn template_without_head_end_gets_the_script_before_the_body() {
    let template = prepare_template("<html><body>x").unwrap();
    assert_eq!(template, Template { before: format!("<html>{}<body>", SCRIPT), after: "x".to_string() });
}

#[test]
fn template_that_is_only_a_body_tag() {
    let template = prepare_template("<body>").unwrap();
    assert_eq!(template.before, format!("{}<body>", SCRIPT));
    assert_eq!(template.after, "");
}

#[test]
fn template_is_split_at_the_first_body_tag() {
    let template = prepare_template("a<body>b<body>c</head>d").unwrap();
    assert_eq!(template.before, format!("a{}<body>", SCRIPT));
    assert_eq!(template.after, "b<body>c</head>d");
}

#[test]
fn script_goes_before_the_first_head_end() {
    let template = prepare_template("\u{e9}</head>x</head><body>\u{261e}").unwrap();
    assert_eq!(template.before, format!("\u{e9}{}</head>x</head><body>", SCRIPT));
    assert_eq!(template.after, "\u{261e}");
}

#[test]
fn the_parts_without_the_script_are_the_template() {
    let html = "<!doctype html><html><head></head><body><main></main></body></html>";
    let template = prepare_template(html).unwrap();
    assert_eq!(format!("{}{}", template.before, template.after).replace(SCRIPT, ""), html);
}
