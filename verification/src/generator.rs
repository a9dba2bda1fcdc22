//! The command line of the handwriting generator that the stand-alone writer runs.

use vstd::prelude::*;
use vstd::string::StringExecFns;
use crate::ident::{decimal_digits, decimal_text};

verus! {

/// The texts of a sequence of strings.
pub open spec fn texts(v: Seq<String>) -> Seq<Seq<char>> {
    v.map_values(|s: String| s@)
}

/// Where the image for a text is written.
pub fn svg_path(text: &str) -> (path: String)
    ensures
        path@ == "/"@ + text@ + ".svg"@,
{
    let mut path = "/".to_owned();
    path.append(text);
    path.append(".svg");
    path
}

/// The generator's arguments that name the text and the output file.
pub open spec fn base_args(text: Seq<char>, path: Seq<char>) -> Seq<Seq<char>> {
    seq!["/handwriter/demo.py"@, "-i"@, text, "-o"@, path]
}

fn push_text(args: &mut Vec<String>, s: &str)
    ensures
        texts(final(args)@) == texts(old(args)@).push(s@),
{
    let t = s.to_owned();
    proof {
        assert(texts(args@.push(t)) =~= texts(args@).push(s@));
    }
    args.push(t);
}

/// The generator's arguments for writing `text` into `path` with its own defaults.
pub fn generator_args(text: &str, path: &str) -> (args: Vec<String>)
    ensures
        texts(args@) == base_args(text@, path@),
{
    let mut args: Vec<String> = Vec::new();
    proof {
        assert(texts(args@) =~= seq![]);
    }
    push_text(&mut args, "/handwriter/demo.py");
    push_text(&mut args, "-i");
    push_text(&mut args, text);
    push_text(&mut args, "-o");
    push_text(&mut args, path);
    proof {
        assert(texts(args@) =~= base_args(text@, path@));
    }
    args
}

/// The generator's arguments with every setting given: style 0, color "blue" and
/// width 1 where none was asked for; the bias comes already written out.
pub fn styled_generator_args(
    text: &str,
    path: &str,
    style: Option<u32>,
    bias: &str,
    color: Option<String>,
    width: Option<u32>,
) -> (args: Vec<String>)
    ensures
        texts(args@) == base_args(text@, path@) + seq![
            "-s"@,
            decimal_digits(
                match style {
                    Some(s) => s as nat,
                    None => 0,
                },
            ),
            "-b"@,
            bias@,
            "-c"@,
            match color {
                Some(c) => c@,
                None => "blue"@,
            },
            "-w"@,
            decimal_digits(
                match width {
                    Some(w) => w as nat,
                    None => 1,
                },
            ),
        ],
{
    let mut args = generator_args(text, path);
    let ghost base = texts(args@);
    push_text(&mut args, "-s");
    let s = decimal_text(
        match style {
            Some(s) => s,
            None => 0,
        },
    );
    push_text(&mut args, s.as_str());
    push_text(&mut args, "-b");
    push_text(&mut args, bias);
    push_text(&mut args, "-c");
    match &color {
        Some(c) => push_text(&mut args, c.as_str()),
        None => push_text(&mut args, "blue"),
    }
    push_text(&mut args, "-w");
    let w = decimal_text(
        match width {
            Some(w) => w,
            None => 1,
        },
    );
    push_text(&mut args, w.as_str());
    proof {
        assert(texts(args@) =~= base + seq![
            "-s"@,
            s@,
            "-b"@,
            bias@,
            "-c"@,
            match color {
                Some(c) => c@,
                None => "blue"@,
            },
            "-w"@,
            w@,
        ]);
    }
    args
}

} // verus!
