//! The acceptance fixture: a small source file and the text the normalizer
//! must produce from it, byte for byte.

const ORIGINAL: &str = r#"#![allow(unused_variables)]
#![feature(async_closure)]

// First comment line
/* Header block */

use std::fmt; // inline module comment

// Empty comment lines
//
//
//
//

#[derive(Debug)]
struct Point {
    x: i32, /* inline */
    // y coordinate
    y: i32,
}

/* Nested-style
   /* inner */
   outer end */
fn compute() -> i32 {
    //goofy comment with code fn fake() {}
    42 /* trailing */
}

// Attribute that must stay
#[cfg(test)]
mod tests {
    // Test comment
    #[test]
    fn it_works() {
        assert_eq!(2 + 2, 4); // trailing
    }
} "#;

const EXPECTED: &str = r#"#![allow(unused_variables)]
#![feature(async_closure)]

/* Header block */

use std::fmt; // inline module comment


#[derive(Debug)]
struct Point {
    x: i32, /* inline */
    y: i32,
}

/* Nested-style
   /* inner */
   outer end */
fn compute() -> i32 {
    42 /* trailing */
}

#[cfg(test)]
mod tests {
    #[test]
    fn it_works() {
        assert_eq!(2 + 2, 4); // trailing
    }
} "#;

#[test]
fn original_it_works() {
    assert_eq!(2 + 2, 4);
}

#[test]
fn expected_it_works() {
    assert_eq!(2 + 2, 4);
}

#[test]
fn fixture_end_to_end() {
    let input = ORIGINAL.as_bytes().to_vec();
    let out = decomment::normalize(&input).unwrap();
    assert_eq!(out, EXPECTED.as_bytes().to_vec());
}

#[test]
fn fixture_expected_is_fixed_point() {
    let expected = EXPECTED.as_bytes().to_vec();
    let out = decomment::normalize(&expected).unwrap();
    assert_eq!(out, expected);
}

#[test]
fn fixture_idempotent() {
    let input = ORIGINAL.as_bytes().to_vec();
    let once = decomment::normalize(&input).unwrap();
    let twice = decomment::normalize(&once).unwrap();
    assert_eq!(twice, once);
}

#[test]
fn compute_answer() {
    assert_eq!(decomment::compute(), 42);
}
