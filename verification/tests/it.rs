use mdbook_toc::{Config, Toc, TocError};

fn with_marker(marker: &str) -> Config {
    let mut c = Config::default();
    c.marker = marker.as_bytes().to_vec();
    c
}

fn with_max_level(level: u32) -> Config {
    let mut c = Config::default();
    c.max_level = level;
    c
}

fn add_toc(content: &str, cfg: &Config) -> String {
    let out = Toc::add_toc(content.as_bytes(), cfg).expect("transform failed");
    String::from_utf8(out).expect("output is valid UTF-8")
}

fn assert_toc(input: &str, expected: &str, cfg: &Config) {
    assert_eq!(expected, add_toc(input, cfg));
}

#[test]
fn adds_toc() {
    let input = "\
# Chapter

<!-- toc -->

# Header 1

## Header 1.1

# Header 2

## Header 2.1

## Header 2.2

### Header 2.2.1
";
    let expected = "\
# Chapter

* [Header 1](#header-1)
  * [Header 1.1](#header-11)
* [Header 2](#header-2)
  * [Header 2.1](#header-21)
  * [Header 2.2](#header-22)
    * [Header 2.2.1](#header-221)

# Header 1

## Header 1.1

# Header 2

## Header 2.1

## Header 2.2

### Header 2.2.1
";
    assert_toc(input, expected, &Config::default());
}

#[test]
fn adds_toc_with_inline_code() {
    let input = "\
# Chapter

<!-- toc -->

# Header `code`
";
    let expected = "\
# Chapter

* [Header `code`](#header-code)

# Header `code`
";
    assert_toc(input, expected, &Config::default());
}

#[test]
fn leaves_tables_untouched() {
    let input = "\
# Chapter

<!-- toc -->

# Header

| a | b |
|---|---|
| 1 | 2 |
";
    let expected = "\
# Chapter

* [Header](#header)

# Header

| a | b |
|---|---|
| 1 | 2 |
";
    assert_toc(input, expected, &Config::default());
}

#[test]
fn handles_inline_code() {
    let input = "\
# Chapter

<!-- toc -->

# Head `of` chapter

## Sub `head`

### Deep

#### Deeper

##### Deepest
";
    let expected = "\
# Chapter

* [Head `of` chapter](#head-of-chapter)
  * [Sub `head`](#sub-head)
    * [Deep](#deep)
      * [Deeper](#deeper)

# Head `of` chapter

## Sub `head`

### Deep

#### Deeper

##### Deepest
";
    assert_toc(input, expected, &Config::default());
}

#[test]
fn multi_header_regression() {
    let input = "\
# Chapter

<!-- toc -->

# Header 1

## Header 1.1

### Header 1.1.1

# Header 2
";
    let expected = "\
# Chapter

* [Header 1](#header-1)
  * [Header 1.1](#header-11)
    * [Header 1.1.1](#header-111)
* [Header 2](#header-2)

# Header 1

## Header 1.1

### Header 1.1.1

# Header 2
";
    assert_toc(input, expected, &Config::default());
}

#[test]
fn multi_header_linear_regression_3() {
    let input = "\
# Chapter

<!-- toc -->

# A

## B

### C
";
    let expected = "\
# Chapter

* [A](#a)
  * [B](#b)
    * [C](#c)

# A

## B

### C
";
    assert_toc(input, expected, &Config::default());
}

#[test]
fn add_toc_with_gitlab_marker() {
    let input = "\
# Chapter

[[_TOC_]]

# Header
";
    let expected = "\
# Chapter

* [Header](#header)

# Header
";
    assert_toc(input, expected, &with_marker("[[_TOC_]]"));
}

#[test]
fn unique_slugs() {
    let input = "\
# Chapter

<!-- toc -->

# Header

## Header

## Header
";
    let expected = "\
# Chapter

* [Header](#header)
  * [Header](#header-1)
  * [Header](#header-2)

# Header

## Header

## Header
";
    assert_toc(input, expected, &Config::default());
}

#[test]
fn add_toc_with_github_marker() {
    let input = "\
# Chapter

* auto-gen TOC:
{:toc}

# Header
";
    let expected = "\
# Chapter

* [Header](#header)

# Header
";
    assert_toc(input, expected, &with_marker("* auto-gen TOC:\n{:toc}\n"));
}

#[test]
fn lower_max_level() {
    let input = "\
# Chapter

<!-- toc -->

# H1

## H2

### H3
";
    let expected = "\
# Chapter

* [H1](#h1)
  * [H2](#h2)

# H1

## H2

### H3
";
    assert_toc(input, expected, &with_max_level(2));
}

#[test]
fn higher_max_level() {
    let input = "\
# Chapter

<!-- toc -->

# 1

## 2

### 3

#### 4

##### 5

###### 6
";
    let expected = "\
# Chapter

* [1](#1)
  * [2](#2)
    * [3](#3)
      * [4](#4)
        * [5](#5)
          * [6](#6)

# 1

## 2

### 3

#### 4

##### 5

###### 6
";
    assert_toc(input, expected, &with_max_level(7));
}

#[test]
fn nonhtml_marker_no_toc_in_page() {
    let input = "\
# Chapter

Some text.

# Another
";
    assert_toc(input, input, &with_marker("[[_TOC_]]"));
}

#[test]
fn similar_heading_different_casing() {
    let input = "\
# Chapter

<!-- toc -->

# Header

## header
";
    let expected = "\
# Chapter

* [Header](#header)
  * [header](#header-1)

# Header

## header
";
    assert_toc(input, expected, &Config::default());
}

#[test]
fn tables_with_html() {
    let input = "\
# Chapter

<!-- toc -->

# Header

| a | b |
|---|---|
| <b>x</b> | 2 |
";
    let expected = "\
# Chapter

* [Header](#header)

# Header

| a | b |
|---|---|
| <b>x</b> | 2 |
";
    assert_toc(input, expected, &Config::default());
}

#[test]
fn backslash_escapes() {
    let input = "\
# Chapter

<!-- toc -->

# Header \\*escaped\\*
";
    let expected = "\
# Chapter

* [Header \\*escaped\\*](#header-escaped)

# Header \\*escaped\\*
";
    assert_toc(input, expected, &Config::default());
}

#[test]
fn empty_document() {
    assert_toc("", "", &Config::default());
}

#[test]
fn crlf() {
    let input = "# Chapter\r\n\r\n<!-- toc -->\r\n\r\n# Header\r\n";
    let expected = "\
# Chapter

* [Header](#header)

# Header
";
    assert_toc(input, expected, &Config::default());
}

#[test]
fn attributes() {
    let input = "\
# Chapter

<!-- toc -->

# Header {#custom-id}

# Header
";
    let expected = "\
# Chapter

* [Header](#custom-id)
* [Header](#header)

# Header {#custom-id}

# Header
";
    assert_toc(input, expected, &Config::default());
}
