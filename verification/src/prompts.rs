//! Reading and writing the text a grouping model trades in: the class ids a
//! prompt offers, and one group object as the model would answer it.
use vstd::prelude::*;

use crate::strings::{pieces, push_char, split_on};
use crate::text::chars_of;

verus! {

/// Unicode's `White_Space` characters, which `char::is_whitespace` answers
/// and `str::trim` and `str::split_whitespace` cut on.
pub open spec fn is_space(c: char) -> bool {
    let u = c as u32;
    (0x9 <= u <= 0xD) || u == 0x20 || u == 0x85 || u == 0xA0 || u == 0x1680 || (0x2000 <= u <= 0x200A)
        || u == 0x2028 || u == 0x2029 || u == 0x202F || u == 0x205F || u == 0x3000
}

/// Whether `c` is white space.
fn space(c: char) -> (r: bool)
    ensures
        r == is_space(c),
{
    let u = c as u32;
    (0x9 <= u && u <= 0xD) || u == 0x20 || u == 0x85 || u == 0xA0 || u == 0x1680 || (0x2000 <= u && u <= 0x200A)
        || u == 0x2028 || u == 0x2029 || u == 0x202F || u == 0x205F || u == 0x3000
}

/// A line with nothing but white space on it.
pub open spec fn blank(l: Seq<char>) -> bool {
    forall|i: int| 0 <= i < l.len() ==> is_space(#[trigger] l[i])
}

/// The last of `ls` that is not blank.
pub open spec fn last_filled(ls: Seq<Seq<char>>) -> Option<Seq<char>>
    decreases ls.len(),
{
    if ls.len() == 0 {
        None
    } else if !blank(ls.last()) {
        Some(ls.last())
    } else {
        last_filled(ls.drop_last())
    }
}

/// The words of `l` — its longest runs of characters that are not white
/// space — and whether `l` ends inside one.
pub open spec fn runs(l: Seq<char>) -> (Seq<Seq<char>>, bool)
    decreases l.len(),
{
    if l.len() == 0 {
        (Seq::empty(), false)
    } else {
        let (ws, open) = runs(l.drop_last());
        if is_space(l.last()) {
            (ws, false)
        } else if open {
            (ws.update(ws.len() - 1, ws.last().push(l.last())), true)
        } else {
            (ws.push(seq![l.last()]), true)
        }
    }
}

/// A class id: `C` and nothing after it but ASCII digits.
pub open spec fn is_class_id(w: Seq<char>) -> bool {
    w.len() >= 1 && w[0] == 'C' && forall|i: int| 1 <= i < w.len() ==> '0' <= #[trigger] w[i] <= '9'
}

/// The class ids among `ws`, in order.
pub open spec fn class_ids(ws: Seq<Seq<char>>) -> Seq<Seq<char>>
    decreases ws.len(),
{
    if ws.len() == 0 {
        Seq::empty()
    } else {
        class_ids(ws.drop_last()) + if is_class_id(ws.last()) { seq![ws.last()] } else { Seq::<Seq<char>>::empty() }
    }
}

/// The class ids a prompt offers: the ids among the words of its last line
/// that is not blank.
pub open spec fn prompt_ids(prompt: Seq<char>) -> Seq<Seq<char>> {
    match last_filled(pieces(prompt, '\n')) {
        Some(l) => class_ids(runs(l).0),
        None => Seq::empty(),
    }
}

/// Whether `s` has nothing but white space.
fn is_blank(s: &str) -> (r: bool)
    ensures
        r == blank(s@),
{
    let cs = chars_of(s);
    let mut i: usize = 0;
    while i < cs.len()
        invariant
            i <= cs@.len(),
            cs@ == s@,
            forall|j: int| 0 <= j < i ==> is_space(#[trigger] cs@[j]),
        decreases cs@.len() - i,
    {
        if !space(cs[i]) {
            return false;
        }
        i = i + 1;
    }
    true
}

/// Whether `w` is a class id.
fn class_id(w: &str) -> (r: bool)
    ensures
        r == is_class_id(w@),
{
    let cs = chars_of(w);
    if cs.len() == 0 || cs[0] != 'C' {
        return false;
    }
    let mut i: usize = 1;
    while i < cs.len()
        invariant
            1 <= i <= cs@.len(),
            cs@ == w@,
            forall|j: int| 1 <= j < i ==> '0' <= #[trigger] cs@[j] <= '9',
        decreases cs@.len() - i,
    {
        if !('0' <= cs[i] && cs[i] <= '9') {
            return false;
        }
        i = i + 1;
    }
    true
}

/// The words of `l`.
fn words(l: &str) -> (out: Vec<String>)
    ensures
        out@.map_values(|w: String| w@) == runs(l@).0,
{
    let cs = chars_of(l);
    let mut out: Vec<String> = Vec::new();
    let mut open = false;
    let mut i: usize = 0;
    assert(cs@.take(0) =~= Seq::<char>::empty());
    while i < cs.len()
        invariant
            i <= cs@.len(),
            cs@ == l@,
            (out@.map_values(|w: String| w@), open) == runs(cs@.take(i as int)),
            open ==> out@.len() > 0,
        decreases cs@.len() - i,
    {
        let ghost before = out@.map_values(|w: String| w@);
        assert(cs@.take(i + 1).drop_last() =~= cs@.take(i as int));
        assert(cs@.take(i + 1).last() == cs@[i as int]);
        let c = cs[i];
        if space(c) {
            open = false;
        } else if open {
            let mut last = out.pop().unwrap();
            push_char(&mut last, c);
            out.push(last);
            assert(out@.map_values(|w: String| w@) =~= before.update(before.len() - 1, before.last().push(c)));
        } else {
            let mut w = String::new();
            push_char(&mut w, c);
            out.push(w);
            assert(out@.map_values(|w: String| w@) =~= before.push(seq![c]));
        }
        open = !space(c);
        i = i + 1;
    }
    assert(cs@.take(cs@.len() as int) =~= cs@);
    out
}

/// The class ids the prompt offers, from its trailing id list: the words of
/// its last line that is not blank that are `C` and digits, in prompt order.
pub fn ids_in_prompt(prompt: &str) -> (out: Vec<String>)
    ensures
        out@.map_values(|w: String| w@) == prompt_ids(prompt@),
{
    let lines = split_on(prompt, '\n');
    let ghost ls = lines@.map_values(|x: String| x@);
    let mut k: usize = lines.len();
    assert(ls.take(ls.len() as int) =~= ls);
    while k > 0
        invariant
            k <= lines@.len(),
            ls == lines@.map_values(|x: String| x@),
            ls == pieces(prompt@, '\n'),
            last_filled(ls) == last_filled(ls.take(k as int)),
        decreases k,
    {
        assert(ls.take(k as int).drop_last() =~= ls.take(k - 1));
        assert(ls.take(k as int).last() == lines@[k - 1]@);
        if !is_blank(lines[k - 1].as_str()) {
            let ws = words(lines[k - 1].as_str());
            let ghost wv = ws@.map_values(|w: String| w@);
            let mut out: Vec<String> = Vec::new();
            let mut j: usize = 0;
            assert(wv.take(0) =~= Seq::<Seq<char>>::empty());
            while j < ws.len()
                invariant
                    j <= ws@.len(),
                    wv == ws@.map_values(|w: String| w@),
                    out@.map_values(|w: String| w@) == class_ids(wv.take(j as int)),
                decreases ws@.len() - j,
            {
                let ghost before = out@.map_values(|w: String| w@);
                assert(wv.take(j + 1).drop_last() =~= wv.take(j as int));
                assert(wv.take(j + 1).last() == ws@[j as int]@);
                if class_id(ws[j].as_str()) {
                    out.push(ws[j].clone());
                    assert(out@.map_values(|w: String| w@) =~= before.push(ws@[j as int]@));
                } else {
                    assert(out@.map_values(|w: String| w@) =~= before);
                }
                j = j + 1;
            }
            assert(wv.take(wv.len() as int) =~= wv);
            return out;
        }
        k = k - 1;
    }
    Vec::new()
}

/// `"a", "b"` for the texts `a` and `b`: each quoted, then joined with `, `.
pub open spec fn quoted_list(cs: Seq<Seq<char>>) -> Seq<char>
    decreases cs.len(),
{
    if cs.len() == 0 {
        Seq::empty()
    } else if cs.len() == 1 {
        seq!['"'] + cs[0] + seq!['"']
    } else {
        quoted_list(cs.drop_last()) + seq![',', ' ', '"'] + cs.last() + seq!['"']
    }
}

/// One group object as the model would answer it.
pub fn json_group(label: &str, effort: &str, classes: &[&str]) -> (out: String)
    ensures
        out@ == "{\"label\": \""@ + label@ + "\", \"description\": \"d\", \"classes\": ["@
            + quoted_list(classes@.map_values(|c: &str| c@)) + "], \"effort\": \""@ + effort@ + "\", \"reason\": \"r\"}"@,
{
    let ghost cv = classes@.map_values(|c: &str| c@);
    let mut list = String::new();
    let mut k: usize = 0;
    assert(cv.take(0) =~= Seq::<Seq<char>>::empty());
    while k < classes.len()
        invariant
            k <= classes@.len(),
            cv == classes@.map_values(|c: &str| c@),
            list@ == quoted_list(cv.take(k as int)),
        decreases classes@.len() - k,
    {
        let ghost before = list@;
        assert(cv.take(k + 1).drop_last() =~= cv.take(k as int));
        assert(cv.take(k + 1).last() == classes@[k as int]@);
        if k > 0 {
            push_char(&mut list, ',');
            push_char(&mut list, ' ');
        }
        push_char(&mut list, '"');
        list.append(classes[k]);
        push_char(&mut list, '"');
        if k == 0 {
            assert(list@ =~= seq!['"'] + classes@[0]@ + seq!['"']);
        } else {
            assert(list@ =~= before + seq![',', ' ', '"'] + classes@[k as int]@ + seq!['"']);
        }
        k = k + 1;
    }
    assert(cv.take(cv.len() as int) =~= cv);
    let mut out = String::new();
    out.append("{\"label\": \"");
    out.append(label);
    out.append("\", \"description\": \"d\", \"classes\": [");
    out.append(list.as_str());
    out.append("], \"effort\": \"");
    out.append(effort);
    out.append("\", \"reason\": \"r\"}");
    assert(out@ =~= "{\"label\": \""@ + label@ + "\", \"description\": \"d\", \"classes\": ["@
        + quoted_list(cv) + "], \"effort\": \""@ + effort@ + "\", \"reason\": \"r\"}"@);
    out
}

} // verus!
