//! What a peer can do, as a set of bits.

use vstd::prelude::*;
use vstd::string::*;
use crate::text;

verus! {

pub const CORE: u64 = 1;

pub const PTY_COMPLETION: u64 = 2;

pub const SECURE_PROXY: u64 = 4;

pub const CLIPBOARD: u64 = 8;

pub const HEARTBEAT: u64 = 16;

pub const STREAM_CANCEL: u64 = 32;

pub const FLOW_CONTROL: u64 = 64;

pub const ALL: u64 = 127;

/// Whether a capability is among those given.
pub open spec fn has(capabilities: u64, bit: u64) -> bool {
    capabilities & bit != 0
}

pub open spec fn named(capabilities: u64, bit: u64, name: Seq<char>) -> Seq<Seq<char>> {
    if has(capabilities, bit) {
        seq![name]
    } else {
        Seq::empty()
    }
}

/// The names of the capabilities that are present, from the lowest bit up.
pub open spec fn names_spec(capabilities: u64) -> Seq<Seq<char>> {
    named(capabilities, CORE, "core"@) + named(capabilities, PTY_COMPLETION, "pty-completion"@)
        + named(capabilities, SECURE_PROXY, "secure-proxy"@) + named(
        capabilities,
        CLIPBOARD,
        "clipboard"@,
    ) + named(capabilities, HEARTBEAT, "heartbeat"@) + named(
        capabilities,
        STREAM_CANCEL,
        "stream-cancel"@,
    ) + named(capabilities, FLOW_CONTROL, "flow-control"@)
}

/// The views of a list of strings.
pub open spec fn views(names: Seq<&'static str>) -> Seq<Seq<char>> {
    names.map_values(|s: &'static str| s@)
}

fn name_if(out: &mut Vec<&'static str>, capabilities: u64, bit: u64, name: &'static str)
    ensures
        views(final(out)@) == views(old(out)@) + named(capabilities, bit, name@),
{
    if capabilities & bit != 0 {
        out.push(name);
    }
    assert(views(out@) =~= views(old(out)@) + named(capabilities, bit, name@));
}

/// The names of the capabilities that are present, from the lowest bit up.
pub fn names(capabilities: u64) -> (r: Vec<&'static str>)
    ensures
        views(r@) == names_spec(capabilities),
{
    let mut out: Vec<&'static str> = Vec::new();
    assert(views(out@) =~= Seq::<Seq<char>>::empty());
    name_if(&mut out, capabilities, CORE, "core");
    name_if(&mut out, capabilities, PTY_COMPLETION, "pty-completion");
    name_if(&mut out, capabilities, SECURE_PROXY, "secure-proxy");
    name_if(&mut out, capabilities, CLIPBOARD, "clipboard");
    name_if(&mut out, capabilities, HEARTBEAT, "heartbeat");
    name_if(&mut out, capabilities, STREAM_CANCEL, "stream-cancel");
    name_if(&mut out, capabilities, FLOW_CONTROL, "flow-control");
    assert(views(out@) =~= names_spec(capabilities));
    out
}

/// The names separated by commas, or `none`.
pub open spec fn display_spec(capabilities: u64) -> Seq<char> {
    if names_spec(capabilities).len() == 0 {
        "none"@
    } else {
        text::joined(names_spec(capabilities), ","@)
    }
}

/// The names separated by commas, or `none`.
pub fn display(capabilities: u64) -> (r: String)
    ensures
        r@ == display_spec(capabilities),
{
    let all = names(capabilities);
    if all.len() == 0 {
        return String::from_str("none");
    }
    let mut out = String::from_str(all[0]);
    let mut i: usize = 1;
    assert(views(all@).take(1) =~= seq![all@[0]@]);
    assert(text::joined(seq![all@[0]@], ","@) =~= all@[0]@) by {
        assert(seq![all@[0]@].drop_last() =~= Seq::<Seq<char>>::empty());
    }
    while i < all.len()
        invariant
            1 <= i <= all@.len(),
            out@ == text::joined(views(all@).take(i as int), ","@),
        decreases all@.len() - i,
    {
        proof {
            let more = views(all@).take(i + 1);
            assert(more.drop_last() =~= views(all@).take(i as int));
            assert(more.last() == all@[i as int]@);
        }
        out.append(",");
        out.append(all[i]);
        i += 1;
    }
    assert(views(all@).take(i as int) =~= views(all@));
    out
}

/// Every capability has its own name, and the full set has them all.
pub proof fn lemma_all_names()
    ensures
        names_spec(ALL) == seq![
            "core"@,
            "pty-completion"@,
            "secure-proxy"@,
            "clipboard"@,
            "heartbeat"@,
            "stream-cancel"@,
            "flow-control"@,
        ],
        names_spec(0) == Seq::<Seq<char>>::empty(),
{
    assert(127u64 & 1 == 1 && 127u64 & 2 == 2 && 127u64 & 4 == 4 && 127u64 & 8 == 8 && 127u64 & 16
        == 16 && 127u64 & 32 == 32 && 127u64 & 64 == 64) by (bit_vector);
    assert(0u64 & 1 == 0 && 0u64 & 2 == 0 && 0u64 & 4 == 0 && 0u64 & 8 == 0 && 0u64 & 16 == 0 && 0u64
        & 32 == 0 && 0u64 & 64 == 0) by (bit_vector);
    assert(names_spec(ALL) =~= seq![
        "core"@,
        "pty-completion"@,
        "secure-proxy"@,
        "clipboard"@,
        "heartbeat"@,
        "stream-cancel"@,
        "flow-control"@,
    ]);
    assert(names_spec(0) =~= Seq::<Seq<char>>::empty());
}

/// A capability is named exactly if it is present, whatever others are.
pub proof fn lemma_names_tell_the_capabilities(capabilities: u64)
    ensures
        names_spec(capabilities).contains("core"@) <==> capabilities & 1 != 0,
        names_spec(capabilities).contains("pty-completion"@) <==> capabilities & 2 != 0,
        names_spec(capabilities).contains("secure-proxy"@) <==> capabilities & 4 != 0,
        names_spec(capabilities).contains("clipboard"@) <==> capabilities & 8 != 0,
        names_spec(capabilities).contains("heartbeat"@) <==> capabilities & 16 != 0,
        names_spec(capabilities).contains("stream-cancel"@) <==> capabilities & 32 != 0,
        names_spec(capabilities).contains("flow-control"@) <==> capabilities & 64 != 0,
{
    reveal_strlit("core");
    reveal_strlit("pty-completion");
    reveal_strlit("secure-proxy");
    reveal_strlit("clipboard");
    reveal_strlit("heartbeat");
    reveal_strlit("stream-cancel");
    reveal_strlit("flow-control");
    assert("core"@[0] == 'c' && "pty-completion"@[0] == 'p' && "secure-proxy"@[1] == 'e'
        && "clipboard"@[1] == 'l' && "heartbeat"@[0] == 'h' && "stream-cancel"@[1] == 't'
        && "flow-control"@[0] == 'f');
    let a = named(capabilities, CORE, "core"@);
    let b = named(capabilities, PTY_COMPLETION, "pty-completion"@);
    let c = named(capabilities, SECURE_PROXY, "secure-proxy"@);
    let d = named(capabilities, CLIPBOARD, "clipboard"@);
    let e = named(capabilities, HEARTBEAT, "heartbeat"@);
    let f = named(capabilities, STREAM_CANCEL, "stream-cancel"@);
    let g = named(capabilities, FLOW_CONTROL, "flow-control"@);
    assert forall|x: Seq<char>| #[trigger] names_spec(capabilities).contains(x) <==> a.contains(x)
        || b.contains(x) || c.contains(x) || d.contains(x) || e.contains(x) || f.contains(x)
        || g.contains(x) by {
        lemma_contains_either(a, b, x);
        lemma_contains_either(a + b, c, x);
        lemma_contains_either(a + b + c, d, x);
        lemma_contains_either(a + b + c + d, e, x);
        lemma_contains_either(a + b + c + d + e, f, x);
        lemma_contains_either(a + b + c + d + e + f, g, x);
    }
    lemma_named(capabilities, CORE, "core"@);
    lemma_named(capabilities, PTY_COMPLETION, "pty-completion"@);
    lemma_named(capabilities, SECURE_PROXY, "secure-proxy"@);
    lemma_named(capabilities, CLIPBOARD, "clipboard"@);
    lemma_named(capabilities, HEARTBEAT, "heartbeat"@);
    lemma_named(capabilities, STREAM_CANCEL, "stream-cancel"@);
    lemma_named(capabilities, FLOW_CONTROL, "flow-control"@);
}

proof fn lemma_contains_either(a: Seq<Seq<char>>, b: Seq<Seq<char>>, x: Seq<char>)
    ensures
        (a + b).contains(x) <==> a.contains(x) || b.contains(x),
{
    if a.contains(x) {
        let i = a.index_of(x);
        assert((a + b)[i] == x);
    }
    if b.contains(x) {
        let i = b.index_of(x);
        assert((a + b)[a.len() + i] == x);
    }
    if (a + b).contains(x) {
        let i = (a + b).index_of(x);
        if i < a.len() {
            assert(a[i] == x);
        } else {
            assert(b[i - a.len()] == x);
        }
    }
}

proof fn lemma_named(capabilities: u64, bit: u64, name: Seq<char>)
    ensures
        forall|x: Seq<char>| #[trigger] named(capabilities, bit, name).contains(x) <==> has(
            capabilities,
            bit,
        ) && x == name,
{
    assert(has(capabilities, bit) ==> named(capabilities, bit, name)[0] == name);
}

} // verus!
