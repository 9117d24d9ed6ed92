//! Which of the process's windows belong to the game.

use vstd::prelude::*;
use vstd::utf8::valid_utf8;

verus! {

/// The class-name prefix of the game's windows: `Valve001`.
pub open spec fn volvo_prefix() -> Seq<u8> {
    seq![86u8, 97u8, 108u8, 118u8, 101u8, 48u8, 48u8, 49u8]
}

/// A window class name (its bytes, up to the terminating zero) names one of
/// the game's windows: it is valid UTF-8 and starts with `Valve001`.
pub open spec fn is_volvo_class(class_name: Seq<u8>) -> bool {
    &&& valid_utf8(class_name)
    &&& class_name.len() >= 8
    &&& class_name.take(8) == volvo_prefix()
}

/// `std::str::from_utf8`: by its documentation it succeeds exactly on valid
/// UTF-8.
#[verifier::external_body]
fn utf8_is_valid(bytes: &[u8]) -> (r: bool)
    ensures
        r == valid_utf8(bytes@),
{
    std::str::from_utf8(bytes).is_ok()
}

/// Whether a window class name names one of the game's windows.
pub fn is_volvo_window_class(class_name: &[u8]) -> (r: bool)
    ensures
        r == is_volvo_class(class_name@),
{
    if class_name.len() < 8 {
        return false;
    }
    let prefix = class_name[0] == 86u8 && class_name[1] == 97u8 && class_name[2] == 108u8
        && class_name[3] == 118u8 && class_name[4] == 101u8 && class_name[5] == 48u8
        && class_name[6] == 48u8 && class_name[7] == 49u8;
    if !prefix {
        assert(class_name@.take(8) != volvo_prefix()) by {
            let t = class_name@.take(8);
            assert(t[0] == class_name@[0] && t[1] == class_name@[1] && t[2] == class_name@[2]
                && t[3] == class_name@[3] && t[4] == class_name@[4] && t[5] == class_name@[5]
                && t[6] == class_name@[6] && t[7] == class_name@[7]);
        }
        return false;
    }
    assert(class_name@.take(8) =~= volvo_prefix());
    utf8_is_valid(class_name)
}

/// The game's windows among the windows of the process, in order, each
/// given with its class name.
pub fn volvo_windows(windows: &Vec<isize>, class_names: &Vec<Vec<u8>>) -> (r: Vec<isize>)
    requires
        windows.len() == class_names.len(),
    ensures
        r@ == volvo_filter(windows@, class_names@),
{
    let mut r: Vec<isize> = Vec::new();
    let mut i: usize = 0;
    while i < windows.len()
        invariant
            windows.len() == class_names.len(),
            i <= windows.len(),
            r@ == volvo_filter(windows@.take(i as int), class_names@.take(i as int)),
        decreases windows.len() - i,
    {
        assert(windows@.take(i + 1).drop_last() =~= windows@.take(i as int));
        assert(class_names@.take(i + 1).drop_last() =~= class_names@.take(i as int));
        if is_volvo_window_class(class_names[i].as_slice()) {
            r.push(windows[i]);
        }
        i = i + 1;
    }
    assert(windows@.take(windows.len() as int) =~= windows@);
    assert(class_names@.take(class_names.len() as int) =~= class_names@);
    r
}


/// A window added at the end is looked at: it ends the list of game
/// windows exactly when its class names one.
pub proof fn law_volvo_filter_push(ws: Seq<isize>, cs: Seq<Vec<u8>>, w: isize, c: Vec<u8>)
    requires
        ws.len() == cs.len(),
    ensures
        volvo_filter(ws.push(w), cs.push(c)) == volvo_filter(ws, cs) + (if is_volvo_class(c@) {
            seq![w]
        } else {
            seq![]
        }),
{
    assert(ws.push(w).drop_last() =~= ws);
    assert(cs.push(c).drop_last() =~= cs);
    assert(volvo_filter(ws, cs) + Seq::<isize>::empty() =~= volvo_filter(ws, cs));
    assert(volvo_filter(ws, cs).push(w) =~= volvo_filter(ws, cs) + seq![w]);
}

/// A window added at the front is looked at too: it starts the list of game
/// windows exactly when its class names one.
pub proof fn law_volvo_filter_prepend(w: isize, c: Vec<u8>, ws: Seq<isize>, cs: Seq<Vec<u8>>)
    requires
        ws.len() == cs.len(),
    ensures
        volvo_filter(seq![w] + ws, seq![c] + cs) == (if is_volvo_class(c@) {
            seq![w]
        } else {
            seq![]
        }) + volvo_filter(ws, cs),
    decreases ws.len(),
{
    let head: Seq<isize> = if is_volvo_class(c@) {
        seq![w]
    } else {
        seq![]
    };
    if ws.len() == 0 {
        assert(seq![w] + ws =~= Seq::<isize>::empty().push(w));
        assert(seq![c] + cs =~= Seq::<Vec<u8>>::empty().push(c));
        law_volvo_filter_push(Seq::<isize>::empty(), Seq::<Vec<u8>>::empty(), w, c);
        assert(volvo_filter(Seq::<isize>::empty(), Seq::<Vec<u8>>::empty()) =~= Seq::<isize>::empty());
        assert(Seq::<isize>::empty() + head =~= head);
        assert(head + volvo_filter(ws, cs) =~= head);
    } else {
        let wp = ws.drop_last();
        let cp = cs.drop_last();
        law_volvo_filter_prepend(w, c, wp, cp);
        assert(seq![w] + ws =~= (seq![w] + wp).push(ws.last()));
        assert(seq![c] + cs =~= (seq![c] + cp).push(cs.last()));
        assert(ws =~= wp.push(ws.last()));
        assert(cs =~= cp.push(cs.last()));
        law_volvo_filter_push(seq![w] + wp, seq![c] + cp, ws.last(), cs.last());
        law_volvo_filter_push(wp, cp, ws.last(), cs.last());
        let tail: Seq<isize> = if is_volvo_class(cs.last()@) {
            seq![ws.last()]
        } else {
            seq![]
        };
        assert(head + volvo_filter(wp, cp) + tail =~= head + (volvo_filter(wp, cp) + tail));
    }
}

/// The windows whose class names name one of the game's windows, in order.
pub open spec fn volvo_filter(windows: Seq<isize>, class_names: Seq<Vec<u8>>) -> Seq<isize>
    decreases windows.len(),
{
    if windows.len() == 0 || class_names.len() == 0 {
        seq![]
    } else if is_volvo_class(class_names.last()@) {
        volvo_filter(windows.drop_last(), class_names.drop_last()).push(windows.last())
    } else {
        volvo_filter(windows.drop_last(), class_names.drop_last())
    }
}

} // verus!
