use mdbook_toc::{Config, Toc, TocError};

fn config_with_marker(marker: &str) -> Config {
    let mut c = Config::default();
    c.marker = marker.as_bytes().to_vec();
    c
}

fn transform(content: &str, cfg: &Config) -> String {
    let out = Toc::add_toc(content.as_bytes(), cfg).expect("transform failed");
    String::from_utf8(out).expect("output is valid UTF-8")
}

#[test]
fn default_config_values() {
    let cfg = Config::default();
    assert_eq!(b"<!-- toc -->\n".to_vec(), cfg.marker);
    assert_eq!(4, cfg.max_level);
}

#[test]
fn document_without_marker_is_unchanged() {
    let input = "\
# Title

Some paragraph with [a link](https://example.invalid) and `code`.

## Deep header
";
    assert_eq!(input, transform(input, &Config::default()));
}

#[test]
fn crlf_without_marker_is_normalized() {
    let input = "# A\r\n\r\nText.\r\n";
    let expected = "# A\n\nText.\n";
    assert_eq!(expected, transform(input, &Config::default()));
}

#[test]
fn nested_headings_small() {
    let input = "# Ch\n\n<!-- toc -->\n\n# H1\n\n## H1.1\n";
    let expected = "# Ch\n\n* [H1](#h1)\n  * [H1.1](#h11)\n\n# H1\n\n## H1.1\n";
    assert_eq!(expected, transform(input, &Config::default()));
}

#[test]
fn marker_styles_equivalent() {
    let html = "# T\n\n<!-- toc -->\n\n# H\n";
    let token = "# T\n\n[[_TOC_]]\n\n# H\n";
    let out_html = transform(html, &Config::default());
    let out_token = transform(token, &config_with_marker("[[_TOC_]]"));
    let expected = "# T\n\n* [H](#h)\n\n# H\n";
    assert_eq!(expected, out_html);
    assert_eq!(out_html, out_token);
}

#[test]
fn headings_before_marker_excluded() {
    let input = "\
# Before

## Also before

<!-- toc -->

# After
";
    let expected = "\
# Before

## Also before

* [After](#after)

# After
";
    assert_eq!(expected, transform(input, &Config::default()));
}

#[test]
fn empty_marker_rejected() {
    let r = Toc::add_toc(b"# Header\n", &config_with_marker(""));
    assert_eq!(Err(TocError::InvalidMarker), r);
}

#[test]
fn whitespace_marker_rejected() {
    let r = Toc::add_toc(b"# Header\n", &config_with_marker("  \n"));
    assert_eq!(Err(TocError::InvalidMarker), r);
}

#[test]
fn duplicate_suffix_reaches_two_digits() {
    let mut input = String::from("<!-- toc -->\n");
    for _ in 0..12 {
        input.push_str("\n# Dup\n");
    }
    let out = transform(&input, &Config::default());
    assert!(out.contains("* [Dup](#dup)\n"));
    assert!(out.contains("* [Dup](#dup-1)\n"));
    assert!(out.contains("* [Dup](#dup-9)\n"));
    assert!(out.contains("* [Dup](#dup-10)\n"));
    assert!(out.contains("* [Dup](#dup-11)\n"));
    assert!(!out.contains("(#dup-12)"));
}

#[test]
fn explicit_id_does_not_consume_counter_slot() {
    let input = "\
<!-- toc -->

# Header {#explicit}

# Header

# Header
";
    let expected = "\
* [Header](#explicit)
* [Header](#header)
* [Header](#header-1)

# Header {#explicit}

# Header

# Header
";
    assert_eq!(expected, transform(input, &Config::default()));
}

#[test]
fn deep_duplicate_advances_counter() {
    // A heading too deep for the list still advances the duplicate counter,
    // since the host assigns ids to every rendered heading.
    let input = "\
<!-- toc -->

##### Dup

# Dup
";
    let expected = "\
* [Dup](#dup-1)

##### Dup

# Dup
";
    assert_eq!(expected, transform(input, &Config::default()));
}

#[test]
fn level_skip_is_clamped() {
    let input = "\
<!-- toc -->

# One

### Jumped
";
    let expected = "\
* [One](#one)
  * [Jumped](#jumped)

# One

### Jumped
";
    assert_eq!(expected, transform(input, &Config::default()));
}

#[test]
fn unicode_headings() {
    let input = "\
<!-- toc -->

# H\u{e9}llo W\u{f6}rld

# Dash\u{2014}Test
";
    let expected = "\
* [H\u{e9}llo W\u{f6}rld](#h\u{e9}llo-w\u{f6}rld)
* [Dash\u{2014}Test](#dashtest)

# H\u{e9}llo W\u{f6}rld

# Dash\u{2014}Test
";
    assert_eq!(expected, transform(input, &Config::default()));
}

#[test]
fn empty_heading_yields_empty_entry() {
    let input = "\
<!-- toc -->

#

# A
";
    let expected = "\
* [](#)
* [A](#a)

#

# A
";
    assert_eq!(expected, transform(input, &Config::default()));
}

#[test]
fn formatted_heading_keeps_raw_text() {
    let input = "\
<!-- toc -->

# **Bold** rest
";
    let expected = "\
* [**Bold** rest](#bold-rest)

# **Bold** rest
";
    assert_eq!(expected, transform(input, &Config::default()));
}

#[test]
fn only_first_marker_replaced() {
    let input = "\
<!-- toc -->

# A

<!-- toc -->
";
    let expected = "\
* [A](#a)

# A

<!-- toc -->
";
    assert_eq!(expected, transform(input, &Config::default()));
}

#[test]
fn marker_at_end_of_document() {
    let input = "# Only\n\n<!-- toc -->\n";
    let expected = "# Only\n\n";
    assert_eq!(expected, transform(input, &Config::default()));
}
