use vstd::prelude::*;
use vstd::string::*;
use crate::ledger::same_text;

verus! {

/// The text that stands for `c` inside HTML markup.
pub open spec fn escape_char(c: char) -> Seq<char> {
    if c == '&' {
        "&amp;"@
    } else if c == '<' {
        "&lt;"@
    } else if c == '>' {
        "&gt;"@
    } else if c == '"' {
        "&quot;"@
    } else if c == '\'' {
        "&#x27;"@
    } else {
        seq![c]
    }
}

/// `s` with each character replaced by its escaped form.
pub open spec fn escaped(s: Seq<char>) -> Seq<char>
    decreases s.len(),
{
    if s.len() == 0 {
        Seq::empty()
    } else {
        escaped(s.drop_last()) + escape_char(s.last())
    }
}

/// Escapes the five characters that carry meaning in HTML markup.
pub fn html_escape(s: &str) -> (r: String)
    ensures
        r@ == escaped(s@),
{
    let n = s.unicode_len();
    let mut out = String::new();
    let mut i: usize = 0;
    while i < n
        invariant
            n == s@.len(),
            i <= n,
            out@ == escaped(s@.take(i as int)),
        decreases n - i,
    {
        assert(s@.take(i + 1).drop_last() =~= s@.take(i as int));
        let c = s.get_char(i);
        if c == '&' {
            out.append("&amp;");
        } else if c == '<' {
            out.append("&lt;");
        } else if c == '>' {
            out.append("&gt;");
        } else if c == '"' {
            out.append("&quot;");
        } else if c == '\'' {
            out.append("&#x27;");
        } else {
            let one = s.substring_char(i, i + 1);
            assert(one@ =~= seq![c]);
            out.append(one);
        }
        i = i + 1;
    }
    assert(s@.take(n as int) =~= s@);
    out
}

/// The badge class that shows a sprite's status; unknown statuses get a
/// neutral one.
pub fn status_badge(status: &str) -> (r: &'static str)
    ensures
        r@ == if status@ == "Idle"@ {
            "bg-gray-500"@
        } else if status@ == "Busy"@ {
            "bg-yellow-500"@
        } else if status@ == "Done"@ {
            "bg-green-500"@
        } else if status@ == "Failed"@ {
            "bg-red-500"@
        } else {
            "bg-gray-600"@
        },
{
    if same_text(status, "Idle") {
        "bg-gray-500"
    } else if same_text(status, "Busy") {
        "bg-yellow-500"
    } else if same_text(status, "Done") {
        "bg-green-500"
    } else if same_text(status, "Failed") {
        "bg-red-500"
    } else {
        "bg-gray-600"
    }
}

} // verus!
