//! The page on which a text is submitted: what it shows and does after each message.

use vstd::prelude::*;
use vstd::string::StringExecFns;
use vstd::string::StringSliceAdditionalSpecFns;
use crate::task::{HandParameters, Task};

verus! {

/// What happens on the page.
pub enum Msg {
    /// The button was pressed: ask the server for a task.
    Generate,
    /// The server answered with the task.
    GeneratedTask(Task),
    /// The request failed.
    GenerateFail,
}

/// What the page does besides showing itself again.
#[derive(Debug, PartialEq, Eq, Clone, Copy)]
pub enum HomeAction {
    Nothing,
    /// Send the form's text and settings to the server.
    RequestTask,
}

/// The state of the page: the id of the task last created, and whether a request
/// is on its way.
pub struct Home {
    pub id: Option<String>,
    pub is_loading: bool,
}

impl Home {
    /// A fresh page: no task yet, nothing on its way.
    pub fn create() -> (h: Self)
        ensures
            h.id is None,
            !h.is_loading,
    {
        Home { id: None, is_loading: false }
    }

    /// Takes a message; answers whether to show the page again, and what to do.
    pub fn update(&mut self, msg: Msg) -> (r: (bool, HomeAction))
        ensures
            match msg {
                Msg::Generate => {
                    &&& final(self).is_loading
                    &&& final(self).id == old(self).id
                    &&& r == (true, HomeAction::RequestTask)
                },
                Msg::GeneratedTask(task) => {
                    &&& !final(self).is_loading
                    &&& final(self).id == Some(task.id)
                    &&& r == (true, HomeAction::Nothing)
                },
                Msg::GenerateFail => {
                    &&& !final(self).is_loading
                    &&& final(self).id == old(self).id
                    &&& r == (true, HomeAction::Nothing)
                },
            },
    {
        match msg {
            Msg::Generate => {
                self.is_loading = true;
                (true, HomeAction::RequestTask)
            },
            Msg::GeneratedTask(task) => {
                self.id = Some(task.id);
                self.is_loading = false;
                (true, HomeAction::Nothing)
            },
            Msg::GenerateFail => {
                self.is_loading = false;
                (true, HomeAction::Nothing)
            },
        }
    }

    /// The class of the page's button; it names the loading state while a request
    /// is on its way.
    pub fn button_class(&self) -> (c: String)
        ensures
            c@ == "button is-info "@ + if self.is_loading {
                "is_loading"@
            } else {
                ""@
            },
    {
        let mut c = "button is-info ".to_owned();
        if self.is_loading {
            c.append("is_loading");
        } else {
            c.append("");
        }
        c
    }
}

/// An ASCII decimal digit.
pub open spec fn is_digit_byte(c: u8) -> bool {
    48 <= c <= 57
}

/// The value of decimal digits, the most significant first.
pub open spec fn digits_value(d: Seq<u8>) -> nat
    decreases d.len(),
{
    if d.len() == 0 {
        0
    } else {
        digits_value(d.drop_last()) * 10 + (d.last() - 48) as nat
    }
}

/// The digits of an unsigned number: the text less one leading `+`.
pub open spec fn unsigned_digits(b: Seq<u8>) -> Seq<u8> {
    if b.len() > 0 && b[0] == 43u8 {
        b.drop_first()
    } else {
        b
    }
}

/// What parsing a text as a `u32` gives: the number, when the text is an optional
/// `+` and then one or more decimal digits whose value fits; else nothing.
pub open spec fn parsed_u32(b: Seq<u8>) -> Option<u32> {
    let d = unsigned_digits(b);
    if d.len() > 0 && (forall|i: int| 0 <= i < d.len() ==> is_digit_byte(#[trigger] d[i]))
        && digits_value(d) <= u32::MAX {
        Some(digits_value(d) as u32)
    } else {
        None
    }
}

/// A prefix of digits is worth no more than all of them.
proof fn lemma_digits_value_prefix(d: Seq<u8>, k: int)
    requires
        0 <= k <= d.len(),
    ensures
        digits_value(d.take(k)) <= digits_value(d),
    decreases d.len() - k,
{
    if k < d.len() {
        let init = d.drop_last();
        assert(init.take(k) =~= d.take(k));
        lemma_digits_value_prefix(init, k);
    } else {
        assert(d.take(k) =~= d);
    }
}

/// The text read as a `u32`, as `str::parse::<u32>` reads it; `None` where that fails.
pub fn parse_u32(s: &str) -> (r: Option<u32>)
    ensures
        r == parsed_u32(s.spec_bytes()),
{
    let b = s.as_bytes();
    let start: usize = if b.len() > 0 && b[0] == 43u8 {
        1
    } else {
        0
    };
    let ghost d = unsigned_digits(b@);
    proof {
        assert(d =~= b@.subrange(start as int, b@.len() as int));
    }
    if start >= b.len() {
        return None;
    }
    let mut acc: u64 = 0;
    let mut i: usize = start;
    proof {
        assert(d.take(0) =~= Seq::<u8>::empty());
    }
    while i < b.len()
        invariant
            b@ == s.spec_bytes(),
            d == unsigned_digits(b@),
            d == b@.subrange(start as int, b@.len() as int),
            start <= i <= b@.len(),
            acc == digits_value(d.take(i - start)),
            acc <= u32::MAX,
            forall|j: int| 0 <= j < i - start ==> is_digit_byte(#[trigger] d[j]),
        decreases b@.len() - i,
    {
        let c = b[i];
        proof {
            assert(d[i - start] == c);
        }
        if c < 48u8 || c > 57u8 {
            proof {
                assert(!is_digit_byte(d[i - start]));
            }
            return None;
        }
        proof {
            let t = d.take(i - start + 1);
            assert(t.drop_last() =~= d.take(i - start));
            assert(t.last() == c);
        }
        acc = acc * 10 + (c - 48u8) as u64;
        if acc > 4294967295u64 {
            proof {
                lemma_digits_value_prefix(d, i - start + 1);
            }
            return None;
        }
        i = i + 1;
    }
    proof {
        assert(d.take(i - start) =~= d);
    }
    Some(acc as u32)
}

/// The request that the page sends: the text, the style as typed read as a
/// `u32`, the bias (as `f32` bits) as typed, and no color or width.
pub fn form_request(text: String, style_input: &str, bias: Option<u32>) -> (p: HandParameters)
    ensures
        p.text == text,
        p.style == parsed_u32(style_input.spec_bytes()),
        p.bias == bias,
        p.color is None,
        p.width is None,
{
    HandParameters { text, style: parse_u32(style_input), bias, color: None, width: None }
}

} // verus!
