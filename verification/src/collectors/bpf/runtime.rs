use vstd::prelude::*;
use crate::probe::RuntimeHealth;
use crate::text::str_eq;

verus! {

pub const PRIMARY_OBJECT_PATH: &'static str = "/usr/lib/bpf/lanspeed-ebpf-kfunc";

pub const FALLBACK_OBJECT_PATH: &'static str = "/usr/lib/bpf/lanspeed-ebpf-fallback";

/// The ingress classifier program of the normal attachment.
pub const INGRESS_PROGRAM_NAME: &'static str = "lanspeed_ingress";

/// The egress classifier program of the normal attachment.
pub const EGRESS_PROGRAM_NAME: &'static str = "lanspeed_egress";

/// The ingress classifier program of the early pass-through attachment.
pub const INGRESS_EARLY_PROGRAM_NAME: &'static str = "lanspeed_ingress_early";

/// The egress classifier program of the early pass-through attachment.
pub const EGRESS_EARLY_PROGRAM_NAME: &'static str = "lanspeed_egress_early";

pub const NORMAL_PRIORITY: u16 = 49_152;

pub const NORMAL_HANDLE: u16 = 0x1eed;

pub const EARLY_PRIORITY: u16 = 1;

pub const EARLY_HANDLE: u16 = 0x1eee;

pub const HOOK_AUDIT_INTERVAL_MS: u64 = 30_000;

/// The longest program name the kernel keeps.
pub const KERNEL_PROGRAM_NAME_MAX: usize = 15;

#[derive(Clone, Copy, Debug, Eq, PartialEq, Structural)]
pub enum ObjectFlavor {
    PrimaryKfunc,
    BytePacketFallback,
}

#[derive(Clone, Copy, Debug, Eq, PartialEq, Structural)]
pub enum AdapterErrorKind {
    ObjectMissing,
    KfuncIncompatible,
    LoadFailed,
    OwnershipConflict,
    AttachFailed,
    DetachFailed,
    MapReadFailed,
}

/// A failure of the BPF adapter, with its kind and message.
#[derive(Clone, Debug, Eq, PartialEq)]
pub struct AdapterError {
    kind: AdapterErrorKind,
    message: String,
}

impl AdapterError {
    pub closed spec fn kind_view(&self) -> AdapterErrorKind {
        self.kind
    }

    pub closed spec fn message_view(&self) -> Seq<char> {
        self.message@
    }

    pub fn new(kind: AdapterErrorKind, message: &str) -> (r: Self)
        ensures
            r.kind_view() == kind,
            r.message_view() == message@,
    {
        AdapterError { kind, message: message.to_owned() }
    }

    pub fn from_message(kind: AdapterErrorKind, message: String) -> (r: Self)
        ensures
            r.kind_view() == kind,
            r.message_view() == message@,
    {
        AdapterError { kind, message }
    }

    pub fn kind(&self) -> (r: AdapterErrorKind)
        ensures
            r == self.kind_view(),
    {
        self.kind
    }

    /// The error as text: its message.
    pub fn describe(&self) -> (r: String)
        ensures
            r@ == self.message_view(),
    {
        self.message.clone()
    }
}

#[derive(Clone, Copy, Debug, Eq, PartialEq, Structural)]
pub enum AttachMode {
    Normal,
    EarlyPassthrough,
}

#[derive(Clone, Copy, Debug, Eq, PartialEq, Ord, PartialOrd, Structural)]
pub enum LinkDirection {
    Ingress,
    Egress,
}

/// One classifier hook: where, which direction, which program, at which
/// priority and handle.
#[derive(Clone, Debug, Eq, PartialEq, Ord, PartialOrd)]
pub struct LinkSpec {
    pub interface: String,
    pub direction: LinkDirection,
    pub program: &'static str,
    pub priority: u16,
    pub handle: u16,
}

/// A hook, its texts taken by value.
pub struct LinkSpecView {
    pub interface: Seq<char>,
    pub direction: LinkDirection,
    pub program: Seq<char>,
    pub priority: u16,
    pub handle: u16,
}

impl View for LinkSpec {
    type V = LinkSpecView;

    open spec fn view(&self) -> LinkSpecView {
        LinkSpecView {
            interface: self.interface@,
            direction: self.direction,
            program: self.program@,
            priority: self.priority,
            handle: self.handle,
        }
    }
}

pub open spec fn specs_view(v: Seq<LinkSpec>) -> Seq<LinkSpecView> {
    v.map_values(|s: LinkSpec| s@)
}

/// The two hooks of an interface in a mode: ingress, then egress.
pub open spec fn spec_pair(interface: Seq<char>, mode: AttachMode) -> Seq<LinkSpecView> {
    let (ingress, egress, priority, handle) = match mode {
        AttachMode::Normal => (
            INGRESS_PROGRAM_NAME@,
            EGRESS_PROGRAM_NAME@,
            NORMAL_PRIORITY,
            NORMAL_HANDLE,
        ),
        AttachMode::EarlyPassthrough => (
            INGRESS_EARLY_PROGRAM_NAME@,
            EGRESS_EARLY_PROGRAM_NAME@,
            EARLY_PRIORITY,
            EARLY_HANDLE,
        ),
    };
    seq![
        LinkSpecView { interface, direction: LinkDirection::Ingress, program: ingress, priority, handle },
        LinkSpecView { interface, direction: LinkDirection::Egress, program: egress, priority, handle },
    ]
}

impl LinkSpec {
    pub fn pair(interface: &str, mode: AttachMode) -> (r: [Self; 2])
        ensures
            seq![r[0]@, r[1]@] == spec_pair(interface@, mode),
    {
        let (ingress, egress, priority, handle) = match mode {
            AttachMode::Normal => (
                INGRESS_PROGRAM_NAME,
                EGRESS_PROGRAM_NAME,
                NORMAL_PRIORITY,
                NORMAL_HANDLE,
            ),
            AttachMode::EarlyPassthrough => (
                INGRESS_EARLY_PROGRAM_NAME,
                EGRESS_EARLY_PROGRAM_NAME,
                EARLY_PRIORITY,
                EARLY_HANDLE,
            ),
        };
        [
            LinkSpec {
                interface: interface.to_owned(),
                direction: LinkDirection::Ingress,
                program: ingress,
                priority,
                handle,
            },
            LinkSpec {
                interface: interface.to_owned(),
                direction: LinkDirection::Egress,
                program: egress,
                priority,
                handle,
            },
        ]
    }

    /// The program name as the kernel keeps it: at most fifteen bytes.
    pub fn kernel_program_name(&self) -> (r: &str)
        ensures
            r@ == crate::identity::hostname::fit_prefix(self.program@, KERNEL_PROGRAM_NAME_MAX as int),
    {
        crate::identity::hostname::bounded_ascii_token(self.program, KERNEL_PROGRAM_NAME_MAX)
    }

    /// Whether two hooks are the same.
    pub fn same(&self, other: &LinkSpec) -> (r: bool)
        ensures
            r == (self@ == other@),
    {
        str_eq(self.interface.as_str(), other.interface.as_str()) && self.direction
            == other.direction && str_eq(self.program, other.program) && self.priority
            == other.priority && self.handle == other.handle
    }

    /// A copy of the hook.
    pub fn copy(&self) -> (r: LinkSpec)
        ensures
            r@ == self@,
    {
        LinkSpec {
            interface: self.interface.clone(),
            direction: self.direction,
            program: self.program,
            priority: self.priority,
            handle: self.handle,
        }
    }
}

#[derive(Clone, Copy, Debug, Eq, PartialEq, Structural)]
pub enum HookState {
    Absent,
    Owned,
    Foreign,
}

} // verus!

verus! {

/// The Debug name of a direction.
pub open spec fn direction_name(direction: LinkDirection) -> Seq<char> {
    match direction {
        LinkDirection::Ingress => "Ingress"@,
        LinkDirection::Egress => "Egress"@,
    }
}

pub open spec fn text_opt(o: Option<String>) -> Option<Seq<char>> {
    match o {
        Some(s) => Some(s@),
        None => None,
    }
}

fn direction_text(direction: LinkDirection) -> (r: &'static str)
    ensures
        r@ == direction_name(direction),
{
    proof {
        reveal_strlit("Ingress");
        reveal_strlit("Egress");
    }
    match direction {
        LinkDirection::Ingress => "Ingress",
        LinkDirection::Egress => "Egress",
    }
}

/// `prefix`, a space, the hook's interface, a space and its direction.
pub open spec fn hook_message(prefix: Seq<char>, spec: LinkSpecView) -> Seq<char> {
    prefix + seq![' '] + spec.interface + seq![' '] + direction_name(spec.direction)
}

fn hook_message_text(prefix: &str, spec: &LinkSpec) -> (r: String)
    ensures
        r@ == hook_message(prefix@, spec@),
{
    let mut cs = crate::text::str_chars(prefix);
    cs.push(' ');
    let mut iface = crate::text::str_chars(spec.interface.as_str());
    cs.append(&mut iface);
    cs.push(' ');
    let mut dir = crate::text::str_chars(direction_text(spec.direction));
    cs.append(&mut dir);
    crate::text::string_from_chars(cs.as_slice())
}

/// Two messages joined by a separator.
pub(crate) fn joined_text(first: &str, separator: &str, second: &str) -> (r: String)
    ensures
        r@ == first@ + separator@ + second@,
{
    let mut cs = crate::text::str_chars(first);
    let mut sep = crate::text::str_chars(separator);
    cs.append(&mut sep);
    let mut tail = crate::text::str_chars(second);
    cs.append(&mut tail);
    crate::text::string_from_chars(cs.as_slice())
}

impl AdapterError {
    /// A copy of the error.
    pub fn copy(&self) -> (r: AdapterError)
        ensures
            r.kind_view() == self.kind_view(),
            r.message_view() == self.message_view(),
    {
        AdapterError { kind: self.kind, message: self.message.clone() }
    }
}

/// One request the runtime made of the adapter, with what came back.
pub enum AdapterRequest {
    Load(Seq<char>, ObjectFlavor, Result<(), AdapterError>),
    EnsureClsact(Seq<char>, Result<(), AdapterError>),
    Inspect(LinkSpecView, Result<HookState, AdapterError>),
    Attach(LinkSpecView, Result<(), AdapterError>),
    Replace(LinkSpecView, Result<(), AdapterError>),
    Detach(LinkSpecView, Result<(), AdapterError>),
    DetachExact(LinkSpecView, Result<(), AdapterError>),
    Forget(LinkSpecView, Result<(), AdapterError>),
    Abandon(LinkSpecView, Result<(), AdapterError>),
    Unload,
}

/// A load of the kfunc object at `primary` was asked first. Where it loaded,
/// nothing more was asked and the runtime is fresh with no note. Where the
/// kernel refused its kfuncs, the byte-packet object at `fallback` was asked
/// next, and its outcome decides: a fresh runtime noting the refusal's
/// message, or the fallback's error. Any other error is returned as it came,
/// with nothing more asked.
pub open spec fn load_requested<L>(
    before: Seq<AdapterRequest>,
    after: Seq<AdapterRequest>,
    primary: Seq<char>,
    fallback: Seq<char>,
    r: Result<BpfRuntime<L>, AdapterError>,
) -> bool {
    let n = before.len() as int;
    &&& after.len() > n
    &&& after.take(n) == before
    &&& after[n] matches AdapterRequest::Load(p, f, o1) && p == primary && f == ObjectFlavor::PrimaryKfunc
        && match o1 {
        Ok(()) => after.len() == n + 1 && (r matches Ok(rt) && fresh_runtime(rt@, None)),
        Err(e) => if e.kind_view() == AdapterErrorKind::KfuncIncompatible {
            &&& after.len() == n + 2
            &&& after[n + 1] matches AdapterRequest::Load(p2, f2, o2) && p2 == fallback && f2
                == ObjectFlavor::BytePacketFallback && match o2 {
                Ok(()) => r matches Ok(rt) && fresh_runtime(rt@, Some(e.message_view())),
                Err(x) => r matches Err(y) && y == x,
            }
        } else {
            after.len() == n + 1 && (r matches Err(y) && y == e)
        },
    }
}

/// The error a request came back with, if any.
pub open spec fn req_error(q: AdapterRequest) -> Option<AdapterError> {
    match q {
        AdapterRequest::Load(_, _, Err(e)) => Some(e),
        AdapterRequest::EnsureClsact(_, Err(e)) => Some(e),
        AdapterRequest::Inspect(_, Err(e)) => Some(e),
        AdapterRequest::Attach(_, Err(e)) => Some(e),
        AdapterRequest::Replace(_, Err(e)) => Some(e),
        AdapterRequest::Detach(_, Err(e)) => Some(e),
        AdapterRequest::DetachExact(_, Err(e)) => Some(e),
        AdapterRequest::Forget(_, Err(e)) => Some(e),
        AdapterRequest::Abandon(_, Err(e)) => Some(e),
        _ => None,
    }
}

/// The first error among `seg`'s requests, in order.
pub open spec fn first_error(seg: Seq<AdapterRequest>) -> Option<AdapterError>
    decreases seg.len(),
{
    if seg.len() == 0 {
        None
    } else {
        match first_error(seg.drop_last()) {
            Some(e) => Some(e),
            None => req_error(seg.last()),
        }
    }
}

/// Shutdown's requests for one hook it had left unresolved: an inspection,
/// then, where the slot is its own, a detach by the exact slot.
pub open spec fn pending_block(b: Seq<AdapterRequest>, s: LinkSpecView) -> bool {
    ||| b.len() == 1 && (b[0] matches AdapterRequest::Inspect(x, st) && x == s && st != Ok::<
        HookState,
        AdapterError,
    >(HookState::Owned))
    ||| b.len() == 2 && b[0] == AdapterRequest::Inspect(s, Ok(HookState::Owned)) && (b[1] matches AdapterRequest::DetachExact(x, _) && x == s)
}

/// Whether shutdown gave up on an unresolved hook: its inspection or its
/// detach failed.
pub open spec fn block_failed(b: Seq<AdapterRequest>) -> bool {
    exists|i: int| 0 <= i < b.len() && #[trigger] req_error(b[i]) is Some
}

/// How many requests the last block of `seg` takes: two where it ends in
/// the call that followed an inspection, one where it ends in the
/// inspection itself.
pub open spec fn last_block_len(seg: Seq<AdapterRequest>) -> int {
    if seg.len() > 0 && seg.last() is Inspect {
        1
    } else {
        2
    }
}

/// `seg` is exactly shutdown's requests for the unresolved hooks `p`, in order.
pub open spec fn pending_phase(seg: Seq<AdapterRequest>, p: Seq<LinkSpecView>) -> bool
    decreases p.len(),
{
    if p.len() == 0 {
        seg.len() == 0
    } else {
        let l = last_block_len(seg);
        &&& seg.len() >= l
        &&& pending_block(seg.subrange(seg.len() - l, seg.len() as int), p.last())
        &&& pending_phase(seg.take(seg.len() - l), p.drop_last())
    }
}

/// The unresolved hooks shutdown could not remove.
pub open spec fn pending_failed(seg: Seq<AdapterRequest>, p: Seq<LinkSpecView>) -> Seq<LinkSpecView>
    decreases p.len(),
{
    if p.len() == 0 || seg.len() < last_block_len(seg) {
        Seq::empty()
    } else {
        let l = last_block_len(seg);
        let prev = pending_failed(seg.take(seg.len() - l), p.drop_last());
        if block_failed(seg.subrange(seg.len() - l, seg.len() as int)) {
            prev.push(p.last())
        } else {
            prev
        }
    }
}

/// Shutdown's requests for one owned link: an inspection, then, unless it
/// failed, the call its slot's state asks for: abandon where a foreign
/// filter took it, forget where it is gone, detach where it is still ours.
pub open spec fn owned_block(b: Seq<AdapterRequest>, s: LinkSpecView) -> bool {
    ||| b.len() == 1 && (b[0] matches AdapterRequest::Inspect(x, st) && x == s && st is Err)
    ||| b.len() == 2 && (b[0] matches AdapterRequest::Inspect(x, Ok(st)) && x == s && match st {
        HookState::Foreign => b[1] matches AdapterRequest::Abandon(y, _) && y == s,
        HookState::Absent => b[1] matches AdapterRequest::Forget(y, _) && y == s,
        HookState::Owned => b[1] matches AdapterRequest::Detach(y, _) && y == s,
    })
}

/// The last `o.len()` blocks of `seg` are shutdown's requests for the owned
/// links `o`, in order.
pub open spec fn owned_phase(seg: Seq<AdapterRequest>, o: Seq<LinkSpecView>) -> bool
    decreases o.len(),
{
    if o.len() == 0 {
        true
    } else {
        let l = last_block_len(seg);
        &&& seg.len() >= l
        &&& owned_block(seg.subrange(seg.len() - l, seg.len() as int), o.last())
        &&& owned_phase(seg.take(seg.len() - l), o.drop_last())
    }
}

/// Where the owned links' requests start.
pub open spec fn owned_start(seg: Seq<AdapterRequest>, o: Seq<LinkSpecView>) -> int
    decreases o.len(),
{
    if o.len() == 0 || seg.len() < last_block_len(seg) {
        seg.len() as int
    } else {
        owned_start(seg.take(seg.len() - last_block_len(seg)), o.drop_last())
    }
}

/// The owned links whose inspection failed: they stay owned.
pub open spec fn owned_kept(seg: Seq<AdapterRequest>, o: Seq<LinkSpecView>) -> Seq<LinkSpecView>
    decreases o.len(),
{
    if o.len() == 0 || seg.len() < last_block_len(seg) {
        Seq::empty()
    } else {
        let l = last_block_len(seg);
        let prev = owned_kept(seg.take(seg.len() - l), o.drop_last());
        if l == 1 {
            prev.push(o.last())
        } else {
            prev
        }
    }
}

/// The owned links whose abandon, forget or detach failed: they are left
/// unresolved.
pub open spec fn owned_failed(seg: Seq<AdapterRequest>, o: Seq<LinkSpecView>) -> Seq<LinkSpecView>
    decreases o.len(),
{
    if o.len() == 0 || seg.len() < last_block_len(seg) {
        Seq::empty()
    } else {
        let l = last_block_len(seg);
        let prev = owned_failed(seg.take(seg.len() - l), o.drop_last());
        if l == 2 && req_error(seg.last()) is Some {
            prev.push(o.last())
        } else {
            prev
        }
    }
}

/// `seg` is exactly shutdown's requests: those for the hooks it had left
/// unresolved `p`, then those for its owned links `o`.
pub open spec fn shutdown_requested(seg: Seq<AdapterRequest>, p: Seq<LinkSpecView>, o: Seq<LinkSpecView>) -> bool {
    let m = owned_start(seg, o);
    &&& 0 <= m <= seg.len()
    &&& owned_phase(seg, o)
    &&& pending_phase(seg.take(m), p)
}

proof fn lemma_first_error_push(seg: Seq<AdapterRequest>, q: AdapterRequest)
    ensures
        first_error(seg.push(q)) == (match first_error(seg) {
            Some(e) => Some(e),
            None => req_error(q),
        }),
{
    assert(seg.push(q).drop_last() =~= seg);
}

proof fn lemma_noted(u0: Seq<LinkSpecView>, u1: Seq<LinkSpecView>, s: LinkSpecView, pf: Seq<LinkSpecView>, noted: bool)
    requires
        forall|x: LinkSpecView| #[trigger] u0.contains(x) <==> pf.contains(x),
        u1 == (if noted {
            if u0.contains(s) {
                u0
            } else {
                u0.push(s)
            }
        } else {
            u0
        }),
    ensures
        forall|x: LinkSpecView| #[trigger] u1.contains(x) <==> (if noted {
            pf.push(s)
        } else {
            pf
        }).contains(x),
{
    if noted {
        let q = pf.push(s);
        assert forall|x: LinkSpecView| #[trigger] u1.contains(x) <==> q.contains(x) by {
            assert(u0.contains(x) <==> pf.contains(x));
            assert(q.contains(x) <==> (pf.contains(x) || x == s)) by {
                if q.contains(x) && x != s {
                    let w = choose|w: int| 0 <= w < q.len() && q[w] == x;
                    assert(w < pf.len());
                    assert(pf[w] == x);
                }
                if pf.contains(x) {
                    let w = choose|w: int| 0 <= w < pf.len() && pf[w] == x;
                    assert(q[w] == x);
                }
                if x == s {
                    assert(q[pf.len() as int] == x);
                }
            }
            if !u0.contains(s) {
                let v = u0.push(s);
                assert(v.contains(x) <==> (u0.contains(x) || x == s)) by {
                    if v.contains(x) && x != s {
                        let w = choose|w: int| 0 <= w < v.len() && v[w] == x;
                        assert(w < u0.len());
                        assert(u0[w] == x);
                    }
                    if u0.contains(x) {
                        let w = choose|w: int| 0 <= w < u0.len() && u0[w] == x;
                        assert(v[w] == x);
                    }
                    if x == s {
                        assert(v[u0.len() as int] == x);
                    }
                }
            }
        }
    }
}

proof fn lemma_first_error_prefix(seg: Seq<AdapterRequest>, m: int)
    requires
        0 <= m <= seg.len(),
        first_error(seg) is None,
    ensures
        first_error(seg.take(m)) is None,
        forall|i: int| 0 <= i < seg.len() ==> #[trigger] req_error(seg[i]) is None,
    decreases seg.len(),
{
    if seg.len() > 0 {
        let d = seg.drop_last();
        if m == seg.len() {
            assert(seg.take(m) =~= seg);
        } else {
            lemma_first_error_prefix(d, m);
            assert(d.take(m) =~= seg.take(m));
        }
        lemma_first_error_prefix(d, d.len() as int);
        assert forall|i: int| 0 <= i < seg.len() implies #[trigger] req_error(seg[i]) is None by {
            if i < d.len() {
                assert(seg[i] == d[i]);
            }
        }
    }
}

proof fn lemma_no_error_keeps_none(seg: Seq<AdapterRequest>, o: Seq<LinkSpecView>)
    requires
        owned_phase(seg, o),
        first_error(seg) is None,
    ensures
        owned_kept(seg, o).len() == 0,
        owned_failed(seg, o).len() == 0,
    decreases o.len(),
{
    if o.len() > 0 {
        let l = last_block_len(seg);
        lemma_first_error_prefix(seg, seg.len() - l);
        assert(req_error(seg[seg.len() - 1]) is None);
        let blk = seg.subrange(seg.len() - l, seg.len() as int);
        if l == 1 {
            assert(blk[0] == seg[seg.len() - 1]);
        }
        lemma_no_error_keeps_none(seg.take(seg.len() - l), o.drop_last());
    }
}

proof fn lemma_no_error_pending(seg: Seq<AdapterRequest>, p: Seq<LinkSpecView>)
    requires
        pending_phase(seg, p),
        first_error(seg) is None,
    ensures
        pending_failed(seg, p).len() == 0,
    decreases p.len(),
{
    if p.len() > 0 {
        let l = last_block_len(seg);
        lemma_first_error_prefix(seg, seg.len() - l);
        let blk = seg.subrange(seg.len() - l, seg.len() as int);
        assert forall|i: int| 0 <= i < blk.len() implies #[trigger] req_error(blk[i]) is None by {
            assert(blk[i] == seg[seg.len() - l + i]);
        }
        lemma_no_error_pending(seg.take(seg.len() - l), p.drop_last());
    }
}

/// Reconciliation's requests for one desired hook `s`: an inspection of
/// its slot, then as the slot's state asks: nothing where the hook is in
/// place, an atomic replace where it is ours but not held, an attach where
/// the slot is empty (after forgetting a stale held link, unless that
/// failed), and nothing more where a foreign filter holds it or the
/// inspection failed.
pub open spec fn reconcile_block(b: Seq<AdapterRequest>, s: LinkSpecView) -> bool {
    &&& b.len() >= 1
    &&& b[0] matches AdapterRequest::Inspect(x, st) && x == s
    &&& match b[0] {
        AdapterRequest::Inspect(_, Ok(HookState::Owned)) => b.len() == 1 || (b.len() == 2
            && (b[1] matches AdapterRequest::Replace(y, _) && y == s)),
        AdapterRequest::Inspect(_, Ok(HookState::Absent)) => {
            ||| b.len() == 2 && (b[1] matches AdapterRequest::Attach(y, _) && y == s)
            ||| b.len() == 2 && (b[1] matches AdapterRequest::Forget(y, Err(_)) && y == s)
            ||| b.len() == 3 && (b[1] matches AdapterRequest::Forget(y, Ok(())) && y == s) && (
            b[2] matches AdapterRequest::Attach(z, _) && z == s)
        },
        _ => b.len() == 1,
    }
}

/// How many requests the last of reconciliation's blocks in `seg` takes.
pub open spec fn reconcile_block_len(seg: Seq<AdapterRequest>) -> int {
    if seg.len() > 0 && seg.last() is Inspect {
        1
    } else if seg.len() >= 2 && seg.last() is Attach && seg[seg.len() - 2] is Forget {
        3
    } else {
        2
    }
}

/// `seg` is exactly reconciliation's requests for the desired hooks `d`,
/// one block per hook, in order.
pub open spec fn reconcile_phase(seg: Seq<AdapterRequest>, d: Seq<LinkSpecView>) -> bool
    decreases d.len(),
{
    if d.len() == 0 {
        seg.len() == 0
    } else {
        let l = reconcile_block_len(seg);
        &&& seg.len() >= l
        &&& reconcile_block(seg.subrange(seg.len() - l, seg.len() as int), d.last())
        &&& reconcile_phase(seg.take(seg.len() - l), d.drop_last())
    }
}

/// A clean-up request of reconciliation: a detach, or an inspection and a
/// detach by the exact slot, of a hook that is not desired.
pub open spec fn cleanup_request(q: AdapterRequest, d: Seq<LinkSpecView>) -> bool {
    match q {
        AdapterRequest::Detach(s, _) => !d.contains(s),
        AdapterRequest::Inspect(s, _) => !d.contains(s),
        AdapterRequest::DetachExact(s, _) => !d.contains(s),
        _ => false,
    }
}

/// Whether a request of reconciliation went through: it did not fail, and
/// no inspection found a foreign filter in the slot.
pub open spec fn request_clean(q: AdapterRequest) -> bool {
    req_error(q) is None && !(q matches AdapterRequest::Inspect(_, Ok(HookState::Foreign)))
}

/// Whether every request of `seg` went through.
pub open spec fn all_clean(seg: Seq<AdapterRequest>) -> bool {
    forall|i: int| 0 <= i < seg.len() ==> #[trigger] request_clean(seg[i])
}

proof fn lemma_clean_push(a: Seq<AdapterRequest>, q: AdapterRequest, n0: int)
    requires
        0 <= n0 <= a.len(),
    ensures
        all_clean(a.push(q).subrange(n0, (a.len() + 1) as int)) == (all_clean(a.subrange(n0, a.len() as int))
            && request_clean(q)),
{
    let s0 = a.subrange(n0, a.len() as int);
    let s1 = a.push(q).subrange(n0, (a.len() + 1) as int);
    assert(s1 =~= s0.push(q));
    if all_clean(s1) {
        assert(request_clean(s1[s0.len() as int]));
        assert forall|i: int| 0 <= i < s0.len() implies #[trigger] request_clean(s0[i]) by {
            assert(s1[i] == s0[i]);
        }
    }
    if all_clean(s0) && request_clean(q) {
        assert forall|i: int| 0 <= i < s1.len() implies #[trigger] request_clean(s1[i]) by {
            if i < s0.len() {
                assert(s1[i] == s0[i]);
            }
        }
    }
}

proof fn lemma_step_state(st: Result<HookState, AdapterError>, held: bool, step: ReconcileStep)
    requires
        st == Ok::<HookState, AdapterError>(HookState::Owned) ==> (if held {
            step is Keep
        } else {
            step is Replace
        }),
        st == Ok::<HookState, AdapterError>(HookState::Absent) ==> step is Reattach,
        st == Ok::<HookState, AdapterError>(HookState::Foreign) ==> step is Conflict,
        st is Err ==> step is Failed,
    ensures
        step is Keep ==> st == Ok::<HookState, AdapterError>(HookState::Owned) && held,
        step is Replace ==> st == Ok::<HookState, AdapterError>(HookState::Owned) && !held,
        step is Reattach ==> st == Ok::<HookState, AdapterError>(HookState::Absent),
        step is Conflict ==> st == Ok::<HookState, AdapterError>(HookState::Foreign),
        step is Failed ==> st is Err,
{
    match st {
        Ok(HookState::Owned) => {},
        Ok(HookState::Absent) => {},
        Ok(HookState::Foreign) => {},
        Err(_) => {},
    }
}

proof fn lemma_reconcile_phase_step(
    seg0: Seq<AdapterRequest>,
    blk: Seq<AdapterRequest>,
    d: Seq<LinkSpecView>,
    i: int,
)
    requires
        0 <= i < d.len(),
        reconcile_phase(seg0, d.take(i)),
        reconcile_block(blk, d[i]),
    ensures
        reconcile_phase(seg0 + blk, d.take(i + 1)),
{
    let seg = seg0 + blk;
    assert(d.take(i + 1).drop_last() =~= d.take(i));
    assert(d.take(i + 1).last() == d[i]);
    assert(seg.last() == blk.last());
    if blk.len() >= 2 {
        assert(seg[seg.len() - 2] == blk[blk.len() - 2]);
    }
    assert(reconcile_block_len(seg) == blk.len());
    assert(seg.subrange(seg.len() - blk.len(), seg.len() as int) =~= blk);
    assert(seg.take(seg.len() - blk.len()) =~= seg0);
}

/// Whether a link call succeeded, whatever handle it gave.
pub open spec fn unit_outcome<T>(r: Result<T, AdapterError>) -> Result<(), AdapterError> {
    match r {
        Ok(_) => Ok(()),
        Err(e) => Err(e),
    }
}

/// What the runtime needs of the BPF loader and the traffic-control
/// netlink interface. Every method may fail or report anything: the runtime
/// is proved for every behaviour of the adapter. The adapter keeps a record
/// of the requests made of it, each with its outcome, in order.
pub trait AyaAdapter {
    type Link;

    /// The requests made so far, each with what it returned. Every
    /// implementation must keep this record: each method below appends
    /// exactly its own request, and the runtime's contracts are stated over
    /// it. The empty default only lets implementations outside verified
    /// code compile; such an implementation is trusted to behave as if it
    /// kept the record.
    closed spec fn requests(&self) -> Seq<AdapterRequest> {
        Seq::empty()
    }

    fn load_object(&mut self, path: &str, flavor: ObjectFlavor) -> (r: Result<(), AdapterError>)
        ensures
            final(self).requests() == old(self).requests().push(AdapterRequest::Load(path@, flavor, r)),
    ;

    fn ensure_clsact(&mut self, interface: &str) -> (r: Result<(), AdapterError>)
        ensures
            final(self).requests() == old(self).requests().push(
                AdapterRequest::EnsureClsact(interface@, r),
            ),
    ;

    fn inspect_hook(&mut self, spec: &LinkSpec) -> (r: Result<HookState, AdapterError>)
        ensures
            final(self).requests() == old(self).requests().push(AdapterRequest::Inspect(spec@, r)),
    ;

    /// Whether the traffic-control topology may have changed since the
    /// previous call. Without an event source the answer is always yes, so
    /// the exact hook audit runs every cycle.
    fn tc_topology_changed(&mut self, specs: &Vec<LinkSpec>) -> bool {
        true
    }

    fn attach_netlink(&mut self, spec: &LinkSpec) -> (r: Result<Self::Link, AdapterError>)
        ensures
            final(self).requests() == old(self).requests().push(
                AdapterRequest::Attach(spec@, unit_outcome(r)),
            ),
    ;

    fn replace_owned_netlink_atomic(&mut self, spec: &LinkSpec) -> (r: Result<Self::Link, AdapterError>)
        ensures
            final(self).requests() == old(self).requests().push(
                AdapterRequest::Replace(spec@, unit_outcome(r)),
            ),
    ;

    fn detach_link(&mut self, spec: &LinkSpec, link: Self::Link) -> (r: Result<(), AdapterError>)
        ensures
            final(self).requests() == old(self).requests().push(AdapterRequest::Detach(spec@, r)),
    ;

    fn detach_exact(&mut self, spec: &LinkSpec) -> (r: Result<(), AdapterError>)
        ensures
            final(self).requests() == old(self).requests().push(AdapterRequest::DetachExact(spec@, r)),
    ;

    fn forget_link(&mut self, spec: &LinkSpec, link: Self::Link) -> (r: Result<(), AdapterError>)
        ensures
            final(self).requests() == old(self).requests().push(AdapterRequest::Forget(spec@, r)),
    ;

    fn abandon_link(&mut self, spec: &LinkSpec, link: Self::Link) -> (r: Result<(), AdapterError>)
        ensures
            final(self).requests() == old(self).requests().push(AdapterRequest::Abandon(spec@, r)),
    ;

    fn read_clients(&mut self) -> Result<crate::collectors::bpf::snapshot::MapRead, AdapterError>;

    fn interface_name(&mut self, ifindex: u32) -> Option<String>;

    fn unload(&mut self)
        ensures
            final(self).requests() == old(self).requests().push(AdapterRequest::Unload),
    ;
}

/// The refusal two inspected slots give: an ownership conflict naming the
/// first of `specs` that a foreign filter occupies, or none where neither is.
pub fn foreign_slot_refusal(specs: &[LinkSpec; 2], first: HookState, second: HookState) -> (r: Option<
    AdapterError,
>)
    ensures
        first == HookState::Foreign ==> (r matches Some(e) && e.kind_view()
            == AdapterErrorKind::OwnershipConflict && e.message_view() == hook_message(
            "foreign filter occupies"@,
            specs@[0]@,
        )),
        first != HookState::Foreign && second == HookState::Foreign ==> (r matches Some(e)
            && e.kind_view() == AdapterErrorKind::OwnershipConflict && e.message_view()
            == hook_message("foreign filter occupies"@, specs@[1]@)),
        first != HookState::Foreign && second != HookState::Foreign ==> r is None,
{
    if first == HookState::Foreign {
        Some(
            AdapterError::from_message(
                AdapterErrorKind::OwnershipConflict,
                hook_message_text("foreign filter occupies", &specs[0]),
            ),
        )
    } else if second == HookState::Foreign {
        Some(
            AdapterError::from_message(
                AdapterErrorKind::OwnershipConflict,
                hook_message_text("foreign filter occupies", &specs[1]),
            ),
        )
    } else {
        None
    }
}

/// What follows the load of the kfunc object.
#[derive(Clone, Debug, Eq, PartialEq)]
pub enum PrimaryLoadStep {
    /// It loaded: nothing more to load.
    Loaded,
    /// The kernel refused its kfuncs: load the byte-packet object, and keep
    /// this message as the reason.
    Fallback(String),
    /// Any other failure, returned as it came.
    Failed(AdapterError),
}

/// The step after the kfunc object's load: done where it loaded, the
/// byte-packet fallback exactly where the kernel refused its kfuncs (with
/// that error's message kept), and otherwise the error itself.
pub fn primary_load_step(primary: Result<(), AdapterError>) -> (s: PrimaryLoadStep)
    ensures
        primary is Ok ==> s is Loaded,
        primary matches Err(e) ==> (e.kind_view() == AdapterErrorKind::KfuncIncompatible ==> (
        s matches PrimaryLoadStep::Fallback(m) && m@ == e.message_view())),
        primary matches Err(e) ==> (e.kind_view() != AdapterErrorKind::KfuncIncompatible ==> (
        s matches PrimaryLoadStep::Failed(x) && x == e)),
{
    match primary {
        Ok(()) => PrimaryLoadStep::Loaded,
        Err(error) => {
            if error.kind() == AdapterErrorKind::KfuncIncompatible {
                PrimaryLoadStep::Fallback(error.describe())
            } else {
                PrimaryLoadStep::Failed(error)
            }
        },
    }
}

/// What reconciliation does with one desired hook, given what its slot
/// holds.
#[derive(Clone, Debug, Eq, PartialEq)]
pub enum ReconcileStep {
    /// Ours and held by the runtime: keep it.
    Keep,
    /// Ours but not held by the runtime: take it over by an atomic replace.
    Replace,
    /// Empty: forget a stale held link, then attach afresh.
    Reattach,
    /// A foreign filter holds the slot.
    Conflict,
    /// The slot could not be inspected.
    Failed(AdapterError),
}

/// The step for a desired hook: keep it where it is ours and `held`,
/// replace it where it is ours but not held, attach it again where the slot
/// is empty, refuse a foreign filter, and pass an inspection error on.
pub fn reconcile_step(state: Result<HookState, AdapterError>, held: bool) -> (s: ReconcileStep)
    ensures
        state == Ok::<HookState, AdapterError>(HookState::Owned) ==> (if held {
            s is Keep
        } else {
            s is Replace
        }),
        state == Ok::<HookState, AdapterError>(HookState::Absent) ==> s is Reattach,
        state == Ok::<HookState, AdapterError>(HookState::Foreign) ==> s is Conflict,
        state matches Err(e) ==> (s matches ReconcileStep::Failed(x) && x == e),
{
    match state {
        Ok(HookState::Owned) => {
            if held {
                ReconcileStep::Keep
            } else {
                ReconcileStep::Replace
            }
        },
        Ok(HookState::Absent) => ReconcileStep::Reattach,
        Ok(HookState::Foreign) => ReconcileStep::Conflict,
        Err(e) => ReconcileStep::Failed(e),
    }
}

/// What reconciliation does with a hook it left unresolved and no longer
/// wants, given what its slot holds.
#[derive(Clone, Debug, Eq, PartialEq)]
pub enum UnresolvedStep {
    /// The slot is empty: nothing left to remove.
    Gone,
    /// Ours: detach it by its exact slot.
    Detach,
    /// A foreign filter holds the slot: keep it unresolved.
    Conflict,
    /// The slot could not be inspected: keep it unresolved.
    Failed(AdapterError),
}

/// The step for an unwanted unresolved hook: done where its slot is empty,
/// detach where it is ours, and keep it unresolved where a foreign filter
/// holds it or inspection failed.
pub fn unresolved_step(state: Result<HookState, AdapterError>) -> (s: UnresolvedStep)
    ensures
        state == Ok::<HookState, AdapterError>(HookState::Absent) ==> s is Gone,
        state == Ok::<HookState, AdapterError>(HookState::Owned) ==> s is Detach,
        state == Ok::<HookState, AdapterError>(HookState::Foreign) ==> s is Conflict,
        state matches Err(e) ==> (s matches UnresolvedStep::Failed(x) && x == e),
{
    match state {
        Ok(HookState::Absent) => UnresolvedStep::Gone,
        Ok(HookState::Owned) => UnresolvedStep::Detach,
        Ok(HookState::Foreign) => UnresolvedStep::Conflict,
        Err(e) => UnresolvedStep::Failed(e),
    }
}

/// The error for a reconciliation slot that a foreign filter holds.
pub fn reconcile_conflict() -> (e: AdapterError)
    ensures
        e.kind_view() == AdapterErrorKind::OwnershipConflict,
        e.message_view() == "foreign filter occupies a reconciliation slot"@,
{
    AdapterError::new(AdapterErrorKind::OwnershipConflict, "foreign filter occupies a reconciliation slot")
}

/// A hook this runtime attached, with the adapter's handle on it.
#[derive(Debug)]
struct OwnedLink<L> {
    spec: LinkSpec,
    link: L,
}

spec fn link_specs<L>(links: Seq<OwnedLink<L>>) -> Seq<LinkSpecView> {
    links.map_values(|o: OwnedLink<L>| o.spec@)
}

proof fn lemma_link_specs_push<L>(links: Seq<OwnedLink<L>>, o: OwnedLink<L>)
    ensures
        link_specs(links.push(o)) == link_specs(links).push(o.spec@),
{
    assert(link_specs(links.push(o)) =~= link_specs(links).push(o.spec@));
}

proof fn lemma_link_specs_remove<L>(links: Seq<OwnedLink<L>>, i: int)
    requires
        0 <= i < links.len(),
    ensures
        link_specs(links.remove(i)) == link_specs(links).remove(i),
{
    assert(link_specs(links.remove(i)) =~= link_specs(links).remove(i));
}

/// Removing an element other than `x` keeps `x` in the sequence.
proof fn lemma_contains_after_remove<A>(s: Seq<A>, i: int, x: A)
    requires
        0 <= i < s.len(),
        s[i] != x,
        s.contains(x),
    ensures
        s.remove(i).contains(x),
{
    let j = choose|j: int| 0 <= j < s.len() && s[j] == x;
    if j < i {
        assert(s.remove(i)[j] == x);
    } else {
        assert(s.remove(i)[j - 1] == x);
    }
}

/// Putting `x` back after removing it keeps every element of `e`.
proof fn lemma_reinsert_keeps(s: Seq<LinkSpecView>, i: int, x: LinkSpecView, e: Seq<LinkSpecView>)
    requires
        0 <= i < s.len(),
        s[i] == x,
        forall|k: int| 0 <= k < e.len() ==> #[trigger] s.contains(e[k]),
    ensures
        forall|k: int| 0 <= k < e.len() ==> #[trigger] s.remove(i).push(x).contains(e[k]),
{
    assert forall|k: int| 0 <= k < e.len() implies #[trigger] s.remove(i).push(x).contains(e[k]) by {
        let t = s.remove(i).push(x);
        if e[k] == x {
            assert(t[t.len() - 1] == e[k]);
        } else {
            assert(s.contains(e[k]));
            lemma_contains_after_remove(s, i, e[k]);
            let w = choose|w: int| 0 <= w < s.remove(i).len() && s.remove(i)[w] == e[k];
            assert(t[w] == e[k]);
        }
    }
}

/// The first owned link whose hook is `spec`.
fn owned_index<L>(links: &Vec<OwnedLink<L>>, spec: &LinkSpec) -> (r: Option<usize>)
    ensures
        match r {
            Some(i) => i < links.len() && link_specs(links@)[i as int] == spec@,
            None => !link_specs(links@).contains(spec@),
        },
{
    let mut i: usize = 0;
    while i < links.len()
        invariant
            i <= links.len(),
            forall|j: int| 0 <= j < i ==> link_specs(links@)[j] != spec@,
        decreases links.len() - i,
    {
        if links[i].spec.same(spec) {
            return Some(i);
        }
        i += 1;
    }
    None
}

/// Whether `specs` holds the hook `spec`.
fn holds_spec(specs: &Vec<LinkSpec>, spec: &LinkSpec) -> (r: bool)
    ensures
        r == specs_view(specs@).contains(spec@),
{
    let mut i: usize = 0;
    while i < specs.len()
        invariant
            i <= specs.len(),
            forall|j: int| 0 <= j < i ==> specs_view(specs@)[j] != spec@,
        decreases specs.len() - i,
    {
        if specs[i].same(spec) {
            assert(specs_view(specs@)[i as int] == spec@);
            return true;
        }
        i += 1;
    }
    false
}

/// A copy of a list of hooks.
fn copy_specs(specs: &Vec<LinkSpec>) -> (r: Vec<LinkSpec>)
    ensures
        specs_view(r@) == specs_view(specs@),
{
    let mut out: Vec<LinkSpec> = Vec::new();
    let mut i: usize = 0;
    while i < specs.len()
        invariant
            i <= specs.len(),
            specs_view(out@) == specs_view(specs@).take(i as int),
        decreases specs.len() - i,
    {
        let c = specs[i].copy();
        proof {
            assert(specs_view(out@.push(c)) =~= specs_view(out@).push(c@));
            assert(specs_view(specs@).take(i + 1) =~= specs_view(specs@).take(i as int).push(
                specs_view(specs@)[i as int],
            ));
        }
        out.push(c);
        i += 1;
    }
    assert(specs_view(specs@).take(specs.len() as int) =~= specs_view(specs@));
    out
}

/// Adds `spec` to `specs` unless it is there already.
pub fn push_unique_spec(specs: &mut Vec<LinkSpec>, spec: LinkSpec)
    ensures
        specs_view(final(specs)@) == if specs_view(old(specs)@).contains(spec@) {
            specs_view(old(specs)@)
        } else {
            specs_view(old(specs)@).push(spec@)
        },
{
    if !holds_spec(specs, &spec) {
        proof {
            assert(specs_view(specs@.push(spec)) =~= specs_view(specs@).push(spec@));
        }
        specs.push(spec);
    }
}

} // verus!

verus! {

#[derive(Clone, Copy, Debug, Eq, PartialEq, Structural)]
pub enum ReconfigureRateBaseline {
    ResetOnNextCollection,
    Prepared,
}

#[derive(Clone, Copy, Debug, Eq, PartialEq, Structural)]
pub enum ReconfigureStrategy {
    InPlace,
    SuspendThenAttach,
}

/// A prepared change of the attached hooks: what is wanted, and what was
/// added so far.
#[derive(Debug)]
pub struct BpfReconfigureTxn {
    desired_specs: Vec<LinkSpec>,
    desired_mode: AttachMode,
    added_specs: Vec<LinkSpec>,
    topology_changed: bool,
}

impl BpfReconfigureTxn {
    pub closed spec fn desired_view(&self) -> Seq<LinkSpecView> {
        specs_view(self.desired_specs@)
    }

    pub closed spec fn mode_view(&self) -> AttachMode {
        self.desired_mode
    }

    pub closed spec fn added_view(&self) -> Seq<LinkSpecView> {
        specs_view(self.added_specs@)
    }

    pub closed spec fn changed_view(&self) -> bool {
        self.topology_changed
    }

    pub fn topology_changed(&self) -> (r: bool)
        ensures
            r == self.changed_view(),
    {
        self.topology_changed
    }
}

/// The links that a committed reconfiguration left behind, to detach.
#[derive(Debug)]
pub struct BpfPostCommitCleanup<L> {
    obsolete: Vec<OwnedLink<L>>,
}

impl<L> BpfPostCommitCleanup<L> {
    pub closed spec fn obsolete_view(&self) -> Seq<LinkSpecView> {
        link_specs(self.obsolete@)
    }
}

/// The interfaces and mode of a suspended topology.
pub struct BpfSuspendedTopology {
    retained_interfaces: Vec<String>,
    mode: AttachMode,
}

impl BpfSuspendedTopology {
    pub closed spec fn retained_view(&self) -> Seq<Seq<char>> {
        crate::control::texts(self.retained_interfaces@)
    }

    pub closed spec fn mode_view(&self) -> AttachMode {
        self.mode
    }
}

/// Nothing attached, expected or pending: only a loaded object.
pub open spec fn is_suspended(v: BpfRuntimeView) -> bool {
    &&& v.object_loaded
    &&& v.owned.len() == 0
    &&& v.expected.len() == 0
    &&& !v.reconcile_required
    &&& v.unresolved.len() == 0
}

/// The interface of each hook, without adjacent repeats.
pub open spec fn hook_interfaces(s: Seq<LinkSpecView>) -> Seq<Seq<char>>
    decreases s.len(),
{
    if s.len() == 0 {
        Seq::empty()
    } else {
        let prefix = hook_interfaces(s.drop_last());
        if prefix.len() > 0 && prefix.last() == s.last().interface {
            prefix
        } else {
            prefix.push(s.last().interface)
        }
    }
}

/// Each name once, in the order of first appearance.
pub open spec fn unique_names(s: Seq<Seq<char>>) -> Seq<Seq<char>>
    decreases s.len(),
{
    if s.len() == 0 {
        Seq::empty()
    } else {
        let prefix = unique_names(s.drop_last());
        if prefix.contains(s.last()) {
            prefix
        } else {
            prefix.push(s.last())
        }
    }
}

/// What the runtime reports of itself.
#[derive(Clone, Debug, Default, Eq, PartialEq)]
pub struct BpfHealth {
    pub object_loaded: bool,
    pub all_expected_hooks_attached: bool,
    pub expected_hook_count: usize,
    pub attached_hook_count: usize,
    pub map_read_attempted: bool,
    pub map_read_ok: bool,
    pub fresh_snapshot: bool,
    pub last_complete_snapshot_ms: Option<u64>,
    pub snapshot_clients: usize,
    pub mode: Option<AttachMode>,
}

/// The owned classifier hooks and what the runtime knows of them.
#[derive(Debug)]
pub struct BpfRuntime<L> {
    object_loaded: bool,
    primary_kfunc_incompatibility: Option<String>,
    links: Vec<OwnedLink<L>>,
    expected_specs: Vec<LinkSpec>,
    unresolved_specs: Vec<LinkSpec>,
    reconcile_required: bool,
    next_hook_audit_ms: u64,
    current_mode: Option<AttachMode>,
    recovery_mode: Option<AttachMode>,
    recovery_specs: Option<Vec<LinkSpec>>,
    rate_reset_required: bool,
    map_read_attempted: bool,
    last_map_read_ok: bool,
    last_complete_snapshot_ms: Option<u64>,
    snapshot_clients: usize,
    map_iteration_truncated_observed: bool,
    self_heal_recoveries: u64,
    self_heal_failures: u64,
    last_self_heal_reason: Option<String>,
    last_self_heal_failure: Option<String>,
    last_runtime_error: Option<String>,
}

/// The state of a runtime, its texts and hooks taken by value.
pub struct BpfRuntimeView {
    pub object_loaded: bool,
    pub kfunc_note: Option<Seq<char>>,
    pub owned: Seq<LinkSpecView>,
    pub expected: Seq<LinkSpecView>,
    pub unresolved: Seq<LinkSpecView>,
    pub reconcile_required: bool,
    pub next_hook_audit_ms: u64,
    pub mode: Option<AttachMode>,
    pub recovery_mode: Option<AttachMode>,
    pub recovery: Option<Seq<LinkSpecView>>,
    pub rate_reset_required: bool,
    pub map_read_attempted: bool,
    pub map_read_ok: bool,
    pub last_complete_ms: Option<u64>,
    pub snapshot_clients: usize,
    pub truncated_observed: bool,
    pub recoveries: u64,
    pub failures: u64,
    pub last_reason: Option<Seq<char>>,
    pub last_failure: Option<Seq<char>>,
    pub last_error: Option<Seq<char>>,
}

impl<L> View for BpfRuntime<L> {
    type V = BpfRuntimeView;

    closed spec fn view(&self) -> BpfRuntimeView {
        BpfRuntimeView {
            object_loaded: self.object_loaded,
            kfunc_note: text_opt(self.primary_kfunc_incompatibility),
            owned: link_specs(self.links@),
            expected: specs_view(self.expected_specs@),
            unresolved: specs_view(self.unresolved_specs@),
            reconcile_required: self.reconcile_required,
            next_hook_audit_ms: self.next_hook_audit_ms,
            mode: self.current_mode,
            recovery_mode: self.recovery_mode,
            recovery: match self.recovery_specs {
                Some(v) => Some(specs_view(v@)),
                None => None,
            },
            rate_reset_required: self.rate_reset_required,
            map_read_attempted: self.map_read_attempted,
            map_read_ok: self.last_map_read_ok,
            last_complete_ms: self.last_complete_snapshot_ms,
            snapshot_clients: self.snapshot_clients,
            truncated_observed: self.map_iteration_truncated_observed,
            recoveries: self.self_heal_recoveries,
            failures: self.self_heal_failures,
            last_reason: text_opt(self.last_self_heal_reason),
            last_failure: text_opt(self.last_self_heal_failure),
            last_error: text_opt(self.last_runtime_error),
        }
    }
}

/// Every expected hook is owned.
pub open spec fn all_expected_owned(v: BpfRuntimeView) -> bool {
    forall|i: int| 0 <= i < v.expected.len() ==> #[trigger] v.owned.contains(v.expected[i])
}

/// The hooks are all in place: no reconciliation pending, at least one hook
/// expected, and every expected hook owned.
pub open spec fn spec_is_attached(v: BpfRuntimeView) -> bool {
    &&& !v.reconcile_required
    &&& v.expected.len() > 0
    &&& all_expected_owned(v)
}

/// Switching to `desired` in `mode` has nothing to do: the runtime is in
/// that mode already and expects exactly as many hooks, each one desired.
pub open spec fn switch_unneeded(v: BpfRuntimeView, desired: Seq<LinkSpecView>, mode: AttachMode) -> bool {
    &&& v.mode == Some(mode)
    &&& v.expected.len() == desired.len()
    &&& forall|q: int| 0 <= q < v.expected.len() ==> #[trigger] desired.contains(v.expected[q])
}

/// A freshly loaded runtime: nothing attached, nothing observed.
pub open spec fn fresh_runtime(v: BpfRuntimeView, note: Option<Seq<char>>) -> bool {
    &&& v.object_loaded
    &&& v.kfunc_note == note
    &&& v.owned.len() == 0
    &&& v.expected.len() == 0
    &&& v.unresolved.len() == 0
    &&& !v.reconcile_required
    &&& v.next_hook_audit_ms == 0
    &&& v.mode is None
    &&& v.recovery_mode is None
    &&& v.recovery is None
    &&& !v.rate_reset_required
    &&& !v.map_read_attempted
    &&& !v.map_read_ok
    &&& v.last_complete_ms is None
    &&& v.snapshot_clients == 0
    &&& !v.truncated_observed
    &&& v.recoveries == 0
    &&& v.failures == 0
    &&& v.last_reason is None
    &&& v.last_failure is None
    &&& v.last_error is None
}


/// The two states differ at most in their hooks and unresolved hooks.
pub open spec fn same_except_hooks(a: BpfRuntimeView, b: BpfRuntimeView) -> bool {
    b == BpfRuntimeView { owned: b.owned, unresolved: b.unresolved, ..a }
}

/// The two states differ at most in their hooks, unresolved hooks and last
/// error.
pub open spec fn same_except_hooks_and_error(a: BpfRuntimeView, b: BpfRuntimeView) -> bool {
    b == BpfRuntimeView { owned: b.owned, unresolved: b.unresolved, last_error: b.last_error, ..a }
}

/// A reconciliation that succeeded: the recovery expectation became the
/// expectation, every expected hook is owned and nothing else, nothing is
/// left unresolved, and the next collection resets the rates.
pub open spec fn reconciled(a: BpfRuntimeView, b: BpfRuntimeView) -> bool {
    &&& a.recovery_mode is Some
    &&& a.recovery is Some
    &&& b == BpfRuntimeView {
        owned: b.owned,
        expected: a.recovery->0,
        unresolved: Seq::empty(),
        reconcile_required: false,
        mode: a.recovery_mode,
        recovery_mode: None,
        recovery: None,
        rate_reset_required: true,
        last_error: None,
        ..a
    }
    &&& all_expected_owned(b)
    &&& forall|i: int| 0 <= i < b.owned.len() ==> #[trigger] b.expected.contains(b.owned[i])
}


/// How many of the expected hooks are owned.
pub open spec fn owned_count(e: Seq<LinkSpecView>, o: Seq<LinkSpecView>) -> nat
    decreases e.len(),
{
    if e.len() == 0 {
        0
    } else {
        owned_count(e.drop_last(), o) + if o.contains(e.last()) {
            1nat
        } else {
            0nat
        }
    }
}

proof fn lemma_owned_count_bound(e: Seq<LinkSpecView>, o: Seq<LinkSpecView>)
    ensures
        owned_count(e, o) <= e.len(),
    decreases e.len(),
{
    if e.len() > 0 {
        lemma_owned_count_bound(e.drop_last(), o);
    }
}

proof fn lemma_owned_count_all(e: Seq<LinkSpecView>, o: Seq<LinkSpecView>)
    requires
        forall|i: int| 0 <= i < e.len() ==> #[trigger] o.contains(e[i]),
    ensures
        owned_count(e, o) == e.len(),
    decreases e.len(),
{
    if e.len() > 0 {
        let p = e.drop_last();
        assert forall|i: int| 0 <= i < p.len() implies #[trigger] o.contains(p[i]) by {
            assert(p[i] == e[i]);
        }
        lemma_owned_count_all(p, o);
        assert(o.contains(e[e.len() - 1]));
    }
}

/// The health report is consistent with the runtime: a snapshot is fresh
/// exactly when one was completed, not in the future and within the window
/// (where there is one); a map read counts as good only when fresh; no more
/// hooks are attached than expected; the hooks count as all attached exactly
/// when the runtime is attached, and then every expected hook, at least one,
/// is attached; and no mode is reported while reconciliation is pending.
pub proof fn lemma_health_consistent<L>(rt: BpfRuntime<L>, now_ms: u64, freshness_ms: u64)
    requires
        rt@.expected.len() <= usize::MAX,
    ensures
        ({
            let h = spec_health(rt@, now_ms, freshness_ms);
            &&& h.fresh_snapshot <==> (rt@.last_complete_ms matches Some(t) && t <= now_ms && (
            freshness_ms == 0 || now_ms - t <= freshness_ms))
            &&& h.map_read_ok ==> h.fresh_snapshot
            &&& h.attached_hook_count <= h.expected_hook_count
            &&& h.all_expected_hooks_attached == spec_is_attached(rt@)
            &&& h.all_expected_hooks_attached ==> h.attached_hook_count == h.expected_hook_count
                && h.expected_hook_count > 0
            &&& rt@.reconcile_required ==> h.mode is None
        }),
{
    let v = rt@;
    assert(v.expected.len() == rt.expected_specs@.len());
    lemma_owned_count_bound(v.expected, v.owned);
    if spec_is_attached(v) {
        lemma_owned_count_all(v.expected, v.owned);
    }
}

/// Whether a snapshot taken at `sample_ms` is fresh at `now_ms`: not from
/// the future, and no older than the window, where there is one.
pub open spec fn spec_fresh(last_complete_ms: Option<u64>, now_ms: u64, freshness_ms: u64) -> bool {
    match last_complete_ms {
        Some(sample_ms) => sample_ms <= now_ms && (freshness_ms == 0 || now_ms - sample_ms
            <= freshness_ms),
        None => false,
    }
}

/// The health a runtime reports.
pub open spec fn spec_health(v: BpfRuntimeView, now_ms: u64, freshness_ms: u64) -> BpfHealth {
    BpfHealth {
        object_loaded: v.object_loaded,
        all_expected_hooks_attached: spec_is_attached(v),
        expected_hook_count: v.expected.len() as usize,
        attached_hook_count: owned_count(v.expected, v.owned) as usize,
        map_read_attempted: v.map_read_attempted,
        map_read_ok: v.map_read_ok && spec_fresh(v.last_complete_ms, now_ms, freshness_ms),
        fresh_snapshot: spec_fresh(v.last_complete_ms, now_ms, freshness_ms),
        last_complete_snapshot_ms: v.last_complete_ms,
        snapshot_clients: v.snapshot_clients,
        mode: if v.reconcile_required {
            None
        } else {
            v.mode
        },
    }
}

fn copy_text_opt(o: &Option<String>) -> (r: Option<String>)
    ensures
        text_opt(r) == text_opt(*o),
{
    match o {
        Some(s) => Some(s.clone()),
        None => None,
    }
}

/// Keeps the hooks that are in `d`, in order.
pub open spec fn kept_in(s: Seq<LinkSpecView>, d: Seq<LinkSpecView>) -> Seq<LinkSpecView>
    decreases s.len(),
{
    if s.len() == 0 {
        s
    } else if d.contains(s.last()) {
        kept_in(s.drop_last(), d).push(s.last())
    } else {
        kept_in(s.drop_last(), d)
    }
}

/// Keeps the hooks that are not in `d`, in order.
pub open spec fn dropped_from(s: Seq<LinkSpecView>, d: Seq<LinkSpecView>) -> Seq<LinkSpecView>
    decreases s.len(),
{
    if s.len() == 0 {
        s
    } else if d.contains(s.last()) {
        dropped_from(s.drop_last(), d)
    } else {
        dropped_from(s.drop_last(), d).push(s.last())
    }
}



/// The hooks of every interface in `mode`, interface by interface.
pub open spec fn interface_pairs(interfaces: Seq<Seq<char>>, mode: AttachMode) -> Seq<LinkSpecView>
    decreases interfaces.len(),
{
    if interfaces.len() == 0 {
        Seq::empty()
    } else {
        interface_pairs(interfaces.drop_last(), mode) + spec_pair(interfaces.last(), mode)
    }
}

/// Both hooks of `interface` in `mode` are owned.
pub open spec fn interface_owned(v: BpfRuntimeView, interface: Seq<char>, mode: AttachMode) -> bool {
    &&& v.owned.contains(spec_pair(interface, mode)[0])
    &&& v.owned.contains(spec_pair(interface, mode)[1])
}

/// `base` extended by each hook of `extra` that it does not hold yet.
pub open spec fn extend_unique(base: Seq<LinkSpecView>, extra: Seq<LinkSpecView>) -> Seq<LinkSpecView>
    decreases extra.len(),
{
    if extra.len() == 0 {
        base
    } else {
        let prefix = extend_unique(base, extra.drop_last());
        if prefix.contains(extra.last()) {
            prefix
        } else {
            prefix.push(extra.last())
        }
    }
}

/// What a collection cycle may change in the runtime, by value.
pub struct CheckpointView {
    pub rate_reset_required: bool,
    pub map_read_attempted: bool,
    pub map_read_ok: bool,
    pub last_complete_ms: Option<u64>,
    pub snapshot_clients: usize,
    pub truncated_observed: bool,
    pub last_error: Option<Seq<char>>,
    pub next_hook_audit_ms: u64,
}

/// The collection state of a runtime.
pub open spec fn checkpoint_of(v: BpfRuntimeView) -> CheckpointView {
    CheckpointView {
        rate_reset_required: v.rate_reset_required,
        map_read_attempted: v.map_read_attempted,
        map_read_ok: v.map_read_ok,
        last_complete_ms: v.last_complete_ms,
        snapshot_clients: v.snapshot_clients,
        truncated_observed: v.truncated_observed,
        last_error: v.last_error,
        next_hook_audit_ms: v.next_hook_audit_ms,
    }
}

/// A runtime with its collection state set back to `c`; hooks, modes and
/// the rest stay as they are.
pub open spec fn with_checkpoint(v: BpfRuntimeView, c: CheckpointView) -> BpfRuntimeView {
    BpfRuntimeView {
        rate_reset_required: c.rate_reset_required,
        map_read_attempted: c.map_read_attempted,
        map_read_ok: c.map_read_ok,
        last_complete_ms: c.last_complete_ms,
        snapshot_clients: c.snapshot_clients,
        truncated_observed: c.truncated_observed,
        last_error: c.last_error,
        next_hook_audit_ms: c.next_hook_audit_ms,
        ..v
    }
}

/// Restoring a checkpoint taken from a runtime brings its collection state
/// back to what it was when the checkpoint was taken, whatever a failed
/// collection changed since, and changes nothing else.
pub proof fn lemma_restore_rolls_back(taken: BpfRuntimeView, later: BpfRuntimeView)
    ensures
        checkpoint_of(with_checkpoint(later, checkpoint_of(taken))) == checkpoint_of(taken),
        with_checkpoint(later, checkpoint_of(later)) == later,
{
}

/// The runtime's collection state and the snapshot collector, saved before
/// a collection so that a failed one can be undone.
pub struct BpfCollectionCheckpoint<C> {
    rate_reset_required: bool,
    map_read_attempted: bool,
    last_map_read_ok: bool,
    last_complete_snapshot_ms: Option<u64>,
    snapshot_clients: usize,
    map_iteration_truncated_observed: bool,
    last_runtime_error: Option<String>,
    next_hook_audit_ms: u64,
    collector: C,
}

impl<C> BpfCollectionCheckpoint<C> {
    /// The saved collection state.
    pub closed spec fn state(self) -> CheckpointView {
        CheckpointView {
            rate_reset_required: self.rate_reset_required,
            map_read_attempted: self.map_read_attempted,
            map_read_ok: self.last_map_read_ok,
            last_complete_ms: self.last_complete_snapshot_ms,
            snapshot_clients: self.snapshot_clients,
            truncated_observed: self.map_iteration_truncated_observed,
            last_error: text_opt(self.last_runtime_error),
            next_hook_audit_ms: self.next_hook_audit_ms,
        }
    }

    /// The saved collector.
    pub closed spec fn saved_collector(self) -> C {
        self.collector
    }
}

impl<L> BpfRuntime<L> {
    /// Saves the collection state with `collector`, a copy of the snapshot
    /// collector as it stands.
    pub fn collection_checkpoint<C>(&self, collector: C) -> (r: BpfCollectionCheckpoint<C>)
        ensures
            r.state() == checkpoint_of(self@),
            r.saved_collector() == collector,
    {
        let last_runtime_error = match &self.last_runtime_error {
            Some(e) => Some(e.clone()),
            None => None,
        };
        BpfCollectionCheckpoint {
            rate_reset_required: self.rate_reset_required,
            map_read_attempted: self.map_read_attempted,
            last_map_read_ok: self.last_map_read_ok,
            last_complete_snapshot_ms: self.last_complete_snapshot_ms,
            snapshot_clients: self.snapshot_clients,
            map_iteration_truncated_observed: self.map_iteration_truncated_observed,
            last_runtime_error,
            next_hook_audit_ms: self.next_hook_audit_ms,
            collector,
        }
    }

    /// Sets the collection state and the collector back to a checkpoint.
    pub fn restore_collection_checkpoint<C>(&mut self, collector: &mut C, checkpoint: BpfCollectionCheckpoint<C>)
        ensures
            final(self)@ == with_checkpoint(old(self)@, checkpoint.state()),
            *final(collector) == checkpoint.saved_collector(),
    {
        let BpfCollectionCheckpoint {
            rate_reset_required,
            map_read_attempted,
            last_map_read_ok,
            last_complete_snapshot_ms,
            snapshot_clients,
            map_iteration_truncated_observed,
            last_runtime_error,
            next_hook_audit_ms,
            collector: saved,
        } = checkpoint;
        self.rate_reset_required = rate_reset_required;
        self.map_read_attempted = map_read_attempted;
        self.last_map_read_ok = last_map_read_ok;
        self.last_complete_snapshot_ms = last_complete_snapshot_ms;
        self.snapshot_clients = snapshot_clients;
        self.map_iteration_truncated_observed = map_iteration_truncated_observed;
        self.last_runtime_error = last_runtime_error;
        self.next_hook_audit_ms = next_hook_audit_ms;
        *collector = saved;
    }
}

impl<L> BpfRuntime<L> {
    fn new_loaded(primary_kfunc_incompatibility: Option<String>) -> (r: Self)
        ensures
            fresh_runtime(r@, text_opt(primary_kfunc_incompatibility)),
    {
        let r = BpfRuntime {
            object_loaded: true,
            primary_kfunc_incompatibility,
            links: Vec::new(),
            expected_specs: Vec::new(),
            unresolved_specs: Vec::new(),
            reconcile_required: false,
            next_hook_audit_ms: 0,
            current_mode: None,
            recovery_mode: None,
            recovery_specs: None,
            rate_reset_required: false,
            map_read_attempted: false,
            last_map_read_ok: false,
            last_complete_snapshot_ms: None,
            snapshot_clients: 0,
            map_iteration_truncated_observed: false,
            self_heal_recoveries: 0,
            self_heal_failures: 0,
            last_self_heal_reason: None,
            last_self_heal_failure: None,
            last_runtime_error: None,
        };
        proof {
            assert(r@.owned =~= Seq::<LinkSpecView>::empty());
            assert(r@.expected =~= Seq::<LinkSpecView>::empty());
            assert(r@.unresolved =~= Seq::<LinkSpecView>::empty());
        }
        r
    }

    /// Loads the kfunc object, or the byte-packet fallback where the kernel
    /// refuses the kfunc one; any other failure is returned as it came.
    pub fn load<A: AyaAdapter<Link = L>>(
        adapter: &mut A,
        primary_path: &str,
        fallback_path: &str,
    ) -> (r: Result<Self, AdapterError>)
        ensures
            load_requested(
                old(adapter).requests(),
                final(adapter).requests(),
                primary_path@,
                fallback_path@,
                r,
            ),
    {
        let ghost before = adapter.requests();
        let primary = adapter.load_object(primary_path, ObjectFlavor::PrimaryKfunc);
        let ghost first = primary;
        let ghost after_first = adapter.requests();
        assert(after_first.take(before.len() as int) =~= before);
        match primary_load_step(primary) {
            PrimaryLoadStep::Loaded => Self::from_object_load(Ok(()), None),
            PrimaryLoadStep::Fallback(message) => {
                let fallback = adapter.load_object(fallback_path, ObjectFlavor::BytePacketFallback);
                assert(adapter.requests().take(before.len() as int) =~= before);
                assert(adapter.requests()[before.len() as int] == after_first[before.len() as int]);
                Self::from_object_load(fallback, Some(message))
            },
            PrimaryLoadStep::Failed(error) => Err(error),
        }
    }

    /// What an object load gives: a fresh runtime, with `note` kept as the
    /// reason the kfunc object was refused, where the load succeeded; the
    /// load's own error, where it failed.
    pub fn from_object_load(outcome: Result<(), AdapterError>, note: Option<String>) -> (r: Result<
        Self,
        AdapterError,
    >)
        ensures
            outcome is Ok ==> (r matches Ok(rt) && fresh_runtime(rt@, text_opt(note))),
            outcome matches Err(e) ==> (r matches Err(x) && x == e),
    {
        match outcome {
            Ok(()) => Ok(Self::new_loaded(note)),
            Err(e) => Err(e),
        }
    }

    /// Loads the byte-accounting object alone.
    pub fn load_byte_only<A: AyaAdapter<Link = L>>(adapter: &mut A, path: &str) -> (r: Result<
        Self,
        AdapterError,
    >)
        ensures
            final(adapter).requests().len() == old(adapter).requests().len() + 1,
            final(adapter).requests().drop_last() == old(adapter).requests(),
            final(adapter).requests().last() matches AdapterRequest::Load(p, f, o) && p == path@ && f
                == ObjectFlavor::BytePacketFallback && match o {
                Ok(()) => r matches Ok(rt) && fresh_runtime(rt@, None),
                Err(e) => r matches Err(x) && x == e,
            },
    {
        let outcome = adapter.load_object(path, ObjectFlavor::BytePacketFallback);
        Self::from_object_load(outcome, None)
    }

    pub fn loaded_for_test() -> (r: Self)
        ensures
            fresh_runtime(r@, None),
    {
        Self::new_loaded(None)
    }

    pub fn primary_kfunc_incompatibility(&self) -> (r: Option<&str>)
        ensures
            match r {
                Some(s) => self@.kfunc_note == Some(s@),
                None => self@.kfunc_note is None,
            },
    {
        match &self.primary_kfunc_incompatibility {
            Some(s) => Some(s.as_str()),
            None => None,
        }
    }

    pub fn attach_mode(&self) -> (r: Option<AttachMode>)
        ensures
            r == self@.mode,
    {
        self.current_mode
    }

    /// In place when the wanted mode is the current one; otherwise the
    /// hooks are suspended and attached anew.
    pub fn reconfigure_strategy(&self, desired_mode: AttachMode) -> (r: ReconfigureStrategy)
        ensures
            r == (if self@.mode == Some(desired_mode) {
                ReconfigureStrategy::InPlace
            } else {
                ReconfigureStrategy::SuspendThenAttach
            }),
    {
        match self.current_mode {
            Some(m) => {
                if m == desired_mode {
                    ReconfigureStrategy::InPlace
                } else {
                    ReconfigureStrategy::SuspendThenAttach
                }
            },
            None => ReconfigureStrategy::SuspendThenAttach,
        }
    }

    fn all_owned(&self) -> (r: bool)
        ensures
            r == all_expected_owned(self@),
    {
        let mut i: usize = 0;
        while i < self.expected_specs.len()
            invariant
                i <= self.expected_specs.len(),
                forall|j: int|
                    0 <= j < i ==> #[trigger] link_specs(self.links@).contains(
                        specs_view(self.expected_specs@)[j],
                    ),
            decreases self.expected_specs.len() - i,
        {
            proof {
                assert(self@.owned == link_specs(self.links@));
                assert(self@.expected == specs_view(self.expected_specs@));
            }
            match owned_index(&self.links, &self.expected_specs[i]) {
                Some(k) => {
                    assert(link_specs(self.links@)[k as int] == specs_view(
                        self.expected_specs@,
                    )[i as int]);
                },
                None => {
                    assert(!self@.owned.contains(self@.expected[i as int]));
                    return false;
                },
            }
            i += 1;
        }
        true
    }

    /// Whether every expected hook is attached and no reconciliation is
    /// pending.
    pub fn is_attached(&self) -> (r: bool)
        ensures
            r == spec_is_attached(self@),
    {
        !self.reconcile_required && self.expected_specs.len() > 0 && self.all_owned()
    }

    pub fn map_iteration_truncated_observed(&self) -> (r: bool)
        ensures
            r == self@.truncated_observed,
    {
        self.map_iteration_truncated_observed
    }

    pub fn self_heal_recoveries(&self) -> (r: u64)
        ensures
            r == self@.recoveries,
    {
        self.self_heal_recoveries
    }

    pub fn self_heal_failures(&self) -> (r: u64)
        ensures
            r == self@.failures,
    {
        self.self_heal_failures
    }

    pub fn last_self_heal_reason(&self) -> (r: Option<&str>)
        ensures
            match r {
                Some(s) => self@.last_reason == Some(s@),
                None => self@.last_reason is None,
            },
    {
        match &self.last_self_heal_reason {
            Some(s) => Some(s.as_str()),
            None => None,
        }
    }

    pub fn last_self_heal_failure(&self) -> (r: Option<&str>)
        ensures
            match r {
                Some(s) => self@.last_failure == Some(s@),
                None => self@.last_failure is None,
            },
    {
        match &self.last_self_heal_failure {
            Some(s) => Some(s.as_str()),
            None => None,
        }
    }

    /// Marks the hooks for reconciliation towards the current expectation,
    /// where there is one.
    fn require_reconciliation(&mut self)
        ensures
            if old(self)@.expected.len() == 0 || old(self)@.mode is None {
                final(self)@ == old(self)@
            } else {
                final(self)@ == (BpfRuntimeView {
                    reconcile_required: true,
                    recovery: Some(old(self)@.expected),
                    recovery_mode: old(self)@.mode,
                    ..old(self)@
                })
            },
    {
        if self.expected_specs.len() == 0 || self.current_mode.is_none() {
            return;
        }
        self.reconcile_required = true;
        self.recovery_specs = Some(copy_specs(&self.expected_specs));
        self.recovery_mode = self.current_mode;
    }

    fn record_self_heal_failure(&mut self, reason: &str, error: &AdapterError)
        ensures
            final(self)@ == (BpfRuntimeView {
                failures: old(self)@.failures.saturating_add(1),
                last_reason: Some(reason@),
                last_failure: Some(error.message_view()),
                last_error: Some(error.message_view()),
                ..old(self)@
            }),
    {
        self.self_heal_failures = self.self_heal_failures.saturating_add(1);
        self.last_self_heal_reason = Some(reason.to_owned());
        self.last_self_heal_failure = Some(error.describe());
        self.last_runtime_error = Some(error.describe());
    }


    /// Stops expecting a hook.
    fn forget_expected(&mut self, spec: &LinkSpec)
        ensures
            final(self)@ == (BpfRuntimeView { expected: final(self)@.expected, ..old(self)@ }),
            forall|x: LinkSpecView|
                #[trigger] final(self)@.expected.contains(x) <==> (old(self)@.expected.contains(x)
                    && x != spec@),
    {
        remove_spec(&mut self.expected_specs, spec);
    }

    /// Remembers a hook whose removal failed.
    fn note_unresolved(&mut self, spec: LinkSpec)
        ensures
            final(self)@ == (BpfRuntimeView {
                unresolved: if old(self)@.unresolved.contains(spec@) {
                    old(self)@.unresolved
                } else {
                    old(self)@.unresolved.push(spec@)
                },
                ..old(self)@
            }),
    {
        push_unique_spec(&mut self.unresolved_specs, spec);
    }

    /// Brings the owned hooks back to the recovery expectation.
    fn reconcile<A: AyaAdapter<Link = L>>(&mut self, adapter: &mut A) -> (r: Result<(), AdapterError>)
        ensures
            old(self)@.recovery_mode is None ==> (r matches Err(e) && e.kind_view()
                == AdapterErrorKind::AttachFailed && e.message_view()
                == "missing mode for reconciliation"@ && final(self)@ == old(self)@),
            old(self)@.recovery_mode is Some && old(self)@.recovery is None ==> (r matches Err(e)
                && e.kind_view() == AdapterErrorKind::AttachFailed && e.message_view()
                == "missing expected hooks for reconciliation"@ && final(self)@ == old(self)@),
            old(self)@.recovery_mode is Some && old(self)@.recovery == Some(Seq::<LinkSpecView>::empty())
                && old(self)@.owned.len() == 0 && old(self)@.unresolved.len() == 0 ==> r is Ok,
            r is Ok ==> reconciled(old(self)@, final(self)@),
            r matches Err(e) ==> same_except_hooks_and_error(old(self)@, final(self)@) && (
            old(self)@.recovery_mode is Some && old(self)@.recovery is Some ==> final(self)@.last_error
                == Some(e.message_view())),
            final(adapter).requests().len() >= old(adapter).requests().len(),
            final(adapter).requests().take(old(adapter).requests().len() as int) == old(
                adapter,
            ).requests(),
            old(self)@.recovery_mode is None || old(self)@.recovery is None ==> final(adapter).requests()
                == old(adapter).requests(),
            old(self)@.recovery_mode is Some && old(self)@.recovery is Some ==> exists|k: int|
                old(adapter).requests().len() <= k <= final(adapter).requests().len()
                    && reconcile_phase(
                    final(adapter).requests().subrange(old(adapter).requests().len() as int, k),
                    old(self)@.recovery->0,
                ) && forall|q: int|
                    k <= q < final(adapter).requests().len() ==> #[trigger] cleanup_request(
                        final(adapter).requests()[q],
                        old(self)@.recovery->0,
                    ),
            old(self)@.recovery_mode is Some && old(self)@.recovery is Some ==> (r is Ok <==> all_clean(
                final(adapter).requests().subrange(
                    old(adapter).requests().len() as int,
                    final(adapter).requests().len() as int,
                ),
            )),
    {
        let ghost r0 = adapter.requests();
        let ghost n0 = r0.len() as int;
        let mode = match self.recovery_mode {
            Some(m) => m,
            None => {
                return Err(
                    AdapterError::new(
                        AdapterErrorKind::AttachFailed,
                        "missing mode for reconciliation",
                    ),
                );
            },
        };
        let desired = match &self.recovery_specs {
            Some(v) => copy_specs(v),
            None => {
                return Err(
                    AdapterError::new(
                        AdapterErrorKind::AttachFailed,
                        "missing expected hooks for reconciliation",
                    ),
                );
            },
        };
        let ghost dv = specs_view(desired@);
        let ghost idle = dv.len() == 0 && old(self)@.owned.len() == 0 && old(self)@.unresolved.len() == 0;
        proof {
            assert(idle ==> self.links@.len() == 0);
        }
        let mut first_error: Option<AdapterError> = None;
        proof {
            assert(adapter.requests().subrange(n0, adapter.requests().len() as int) =~= Seq::<AdapterRequest>::empty());
        }
        let mut i: usize = 0;
        while i < desired.len()
            invariant
                i <= desired.len(),
                dv == specs_view(desired@),
                idle == (dv.len() == 0 && old(self)@.owned.len() == 0 && old(self)@.unresolved.len() == 0),
                idle ==> first_error is None && self.links@.len() == 0,
                same_except_hooks(old(self)@, self@),
                self@.unresolved == old(self)@.unresolved,
                first_error is None ==> forall|k: int|
                    0 <= k < i ==> #[trigger] self@.owned.contains(dv[k]),
                n0 == r0.len(),
                adapter.requests().len() >= n0,
                adapter.requests().take(n0) == r0,
                reconcile_phase(adapter.requests().subrange(n0, adapter.requests().len() as int), dv.take(i as int)),
                first_error is None <==> all_clean(adapter.requests().subrange(n0, adapter.requests().len() as int)),
            decreases desired.len() - i,
        {
            let spec = &desired[i];
            let live_index = owned_index(&self.links, spec);
            let ghost before = self@.owned;
            let ghost breq = adapter.requests();
            assert(spec@ == dv[i as int]);
            let state = adapter.inspect_hook(spec);
            let ghost inspected = state;
            let ghost ireq = adapter.requests();
            proof {
                lemma_clean_push(breq, ireq.last(), n0);
                assert(ireq =~= breq.push(ireq.last()));
            }
            let held = live_index.is_some();
            let step = reconcile_step(state, held);
            let ghost sg = step;
            proof {
                lemma_step_state(inspected, held, sg);
            }
            match step {
                ReconcileStep::Keep => {
                    proof {
                        assert(inspected == Ok::<HookState, AdapterError>(HookState::Owned) && held) by {
                            match inspected {
                                Ok(HookState::Owned) => {},
                                Ok(HookState::Absent) => {},
                                Ok(HookState::Foreign) => {},
                                Err(_) => {},
                            }
                        }
                        let w = live_index->0 as int;
                        assert(self@.owned[w] == dv[i as int]);
                    }
                },
                ReconcileStep::Replace => {
                    {
                        let ghost pre = adapter.requests();
                        let replaced = adapter.replace_owned_netlink_atomic(spec);
                        proof {
                            lemma_clean_push(pre, adapter.requests().last(), n0);
                            assert(adapter.requests() =~= pre.push(adapter.requests().last()));
                        }
                        match replaced {
                            Ok(link) => {
                                let o = OwnedLink { spec: spec.copy(), link };
                                proof {
                                    lemma_link_specs_push(self.links@, o);
                                }
                                self.links.push(o);
                                proof {
                                    assert(self@.owned[self@.owned.len() - 1] == dv[i as int]);
                                    assert forall|k: int| 0 <= k < i + 1 && first_error is None implies #[trigger] self@.owned.contains(dv[k]) by {
                                        if k < i {
                                            assert(before.contains(dv[k]));
                                            let w = choose|w: int| 0 <= w < before.len() && before[w] == dv[k];
                                            assert(self@.owned[w] == dv[k]);
                                        }
                                    }
                                }
                            },
                            Err(error) => {
                                if first_error.is_none() {
                                    first_error = Some(error);
                                }
                            },
                        }
                    }
                },
                ReconcileStep::Reattach => {
                    let mut forgotten = true;
                    match live_index {
                        Some(index) => {
                            proof {
                                lemma_link_specs_remove(self.links@, index as int);
                            }
                            let OwnedLink { spec: _stale_spec, link: stale } = self.links.remove(index);
                            proof {
                                assert forall|k: int| 0 <= k < i && dv[k] != dv[i as int] && first_error is None implies #[trigger] self@.owned.contains(dv[k]) by {
                                    lemma_contains_after_remove(before, index as int, dv[k]);
                                }
                            }
                            let ghost pre = adapter.requests();
                            let forgot = adapter.forget_link(spec, stale);
                            proof {
                                lemma_clean_push(pre, adapter.requests().last(), n0);
                                assert(adapter.requests() =~= pre.push(adapter.requests().last()));
                            }
                            match forgot {
                                Ok(()) => {},
                                Err(error) => {
                                    forgotten = false;
                                    if first_error.is_none() {
                                        first_error = Some(error);
                                    }
                                },
                            }
                        },
                        None => {},
                    }
                    proof {
                        assert forall|k: int| 0 <= k < i && dv[k] != dv[i as int] && forgotten && first_error is None implies #[trigger] self@.owned.contains(dv[k]) by {
                            if live_index is None {
                                assert(self@.owned == before);
                                assert(before.contains(dv[k]));
                            }
                        }
                    }
                    if forgotten {
                        let ghost mid = self@.owned;
                        let ghost pre = adapter.requests();
                        let attached = adapter.attach_netlink(spec);
                        proof {
                            lemma_clean_push(pre, adapter.requests().last(), n0);
                            assert(adapter.requests() =~= pre.push(adapter.requests().last()));
                        }
                        match attached {
                            Ok(link) => {
                                let o = OwnedLink { spec: spec.copy(), link };
                                proof {
                                    lemma_link_specs_push(self.links@, o);
                                }
                                self.links.push(o);
                                proof {
                                    assert(self@.owned[self@.owned.len() - 1] == dv[i as int]);
                                    assert forall|k: int| 0 <= k < i + 1 && first_error is None implies #[trigger] self@.owned.contains(dv[k]) by {
                                        if dv[k] == dv[i as int] {
                                            assert(self@.owned[self@.owned.len() - 1] == dv[k]);
                                        } else {
                                            assert(mid.contains(dv[k]));
                                            let w = choose|w: int| 0 <= w < mid.len() && mid[w] == dv[k];
                                            assert(self@.owned[w] == dv[k]);
                                        }
                                    }
                                }
                            },
                            Err(error) => {
                                if first_error.is_none() {
                                    first_error = Some(error);
                                }
                            },
                        }
                    }
                },
                ReconcileStep::Conflict => {
                    if first_error.is_none() {
                        first_error = Some(reconcile_conflict());
                    }
                },
                ReconcileStep::Failed(error) => {
                    if first_error.is_none() {
                        first_error = Some(error);
                    }
                },
            }
            proof {
                let after = adapter.requests();
                let blk = after.subrange(breq.len() as int, after.len() as int);
                let seg0 = breq.subrange(n0, breq.len() as int);
                assert(after.subrange(n0, after.len() as int) =~= seg0 + blk);
                assert(after.take(n0) =~= breq.take(n0));
                assert(blk[0] == AdapterRequest::Inspect(dv[i as int], inspected));
                assert(reconcile_block(blk, dv[i as int]));
                lemma_reconcile_phase_step(seg0, blk, dv, i as int);
            }
            i += 1;
        }
        let ghost r1 = adapter.requests();
        let ghost k1 = r1.len() as int;
        proof {
            assert(dv.take(i as int) =~= dv);
            assert(r1.take(k1) =~= r1);
            assert(dv == old(self)@.recovery->0);
        }
        match first_error {
            Some(error) => {
                self.last_runtime_error = Some(error.describe());
                proof {
                    assert(reconcile_phase(r1.subrange(n0, k1), old(self)@.recovery->0));
                }
                return Err(error);
            },
            None => {},
        }
        let mut index: usize = 0;
        while index < self.links.len()
            invariant
                n0 == r0.len(),
                r1.len() == k1,
                k1 >= n0,
                r1.take(n0) == r0,
                adapter.requests().len() >= k1,
                adapter.requests().take(k1) == r1,
                reconcile_phase(r1.subrange(n0, k1), dv),
                dv == old(self)@.recovery->0,
                forall|q: int| k1 <= q < adapter.requests().len() ==> #[trigger] cleanup_request(adapter.requests()[q], dv),
                first_error is None <==> all_clean(adapter.requests().subrange(n0, adapter.requests().len() as int)),
                index <= self.links.len(),
                self.links@.len() == self@.owned.len(),
                dv == specs_view(desired@),
                idle ==> first_error is None && self.links@.len() == 0 && self@.unresolved.len() == 0,
                same_except_hooks(old(self)@, self@),
                forall|k: int| 0 <= k < index ==> #[trigger] dv.contains(self@.owned[k]),
                forall|k: int| 0 <= k < dv.len() ==> #[trigger] self@.owned.contains(dv[k]),
            decreases self.links.len() - index,
        {
            let ghost breq = adapter.requests();
            if holds_spec(&desired, &self.links[index].spec) {
                assert(self@.owned[index as int] == self.links@[index as int].spec@);
                index += 1;
            } else {
                let ghost before = self@.owned;
                let ghost gone_spec = self.links@[index as int].spec@;
                assert(before[index as int] == self.links@[index as int].spec@);
                proof {
                    lemma_link_specs_remove(self.links@, index as int);
                }
                let OwnedLink { spec: gone, link } = self.links.remove(index);
                proof {
                    assert forall|k: int| 0 <= k < dv.len() implies #[trigger] self@.owned.contains(dv[k]) by {
                        if before[index as int] == dv[k] {
                            assert(dv.contains(before[index as int]));
                        }
                        assert(before.contains(dv[k]));
                        lemma_contains_after_remove(before, index as int, dv[k]);
                    }
                    assert forall|k: int| 0 <= k < index implies #[trigger] dv.contains(self@.owned[k]) by {
                        assert(self@.owned[k] == before[k]);
                    }
                }
                let ghost gone_view = gone@;
                let ghost pre = adapter.requests();
                let detached = adapter.detach_link(&gone, link);
                proof {
                    lemma_clean_push(pre, adapter.requests().last(), n0);
                    assert(adapter.requests() =~= pre.push(adapter.requests().last()));
                }
                match detached {
                    Ok(()) => {},
                    Err(error) => {
                        if first_error.is_none() {
                            first_error = Some(error);
                        }
                        self.note_unresolved(gone);
                    },
                }
                assert(self.links@.len() == self@.owned.len());
                proof {
                    let after = adapter.requests();
                    assert(after.take(k1) =~= breq.take(k1));
                    assert(!dv.contains(gone_view));
                    assert forall|q: int| k1 <= q < after.len() implies #[trigger] cleanup_request(after[q], dv) by {
                        if q < breq.len() {
                            assert(after[q] == breq[q]);
                        }
                    }
                }
            }
        }
        let mut unresolved: Vec<LinkSpec> = Vec::new();
        std::mem::swap(&mut unresolved, &mut self.unresolved_specs);
        let ghost kept = self@.owned;
        let mut j: usize = 0;
        while j < unresolved.len()
            invariant
                j <= unresolved.len(),
                dv == specs_view(desired@),
                n0 == r0.len(),
                r1.len() == k1,
                k1 >= n0,
                r1.take(n0) == r0,
                adapter.requests().len() >= k1,
                adapter.requests().take(k1) == r1,
                reconcile_phase(r1.subrange(n0, k1), dv),
                dv == old(self)@.recovery->0,
                forall|q: int| k1 <= q < adapter.requests().len() ==> #[trigger] cleanup_request(adapter.requests()[q], dv),
                first_error is None <==> all_clean(adapter.requests().subrange(n0, adapter.requests().len() as int)),
                idle ==> first_error is None && unresolved@.len() == 0,
                self@.owned == kept,
                self@ == (BpfRuntimeView { unresolved: self@.unresolved, owned: kept, ..old(self)@ }),
            decreases unresolved.len() - j,
        {
            let spec = &unresolved[j];
            let ghost breq = adapter.requests();
            if !holds_spec(&desired, spec) {
                let state = adapter.inspect_hook(spec);
                proof {
                    lemma_clean_push(breq, adapter.requests().last(), n0);
                    assert(adapter.requests() =~= breq.push(adapter.requests().last()));
                }
                match unresolved_step(state) {
                    UnresolvedStep::Gone => {},
                    UnresolvedStep::Detach => {
                        let ghost pre = adapter.requests();
                        let detached = adapter.detach_exact(spec);
                        proof {
                            lemma_clean_push(pre, adapter.requests().last(), n0);
                            assert(adapter.requests() =~= pre.push(adapter.requests().last()));
                        }
                        match detached {
                            Ok(()) => {},
                            Err(error) => {
                                if first_error.is_none() {
                                    first_error = Some(error);
                                }
                                self.note_unresolved(spec.copy());
                            },
                        }
                    },
                    UnresolvedStep::Conflict => {
                        if first_error.is_none() {
                            first_error = Some(reconcile_conflict());
                        }
                        self.note_unresolved(spec.copy());
                    },
                    UnresolvedStep::Failed(error) => {
                        if first_error.is_none() {
                            first_error = Some(error);
                        }
                        self.note_unresolved(spec.copy());
                    },
                }
            }
            proof {
                let after = adapter.requests();
                assert(after.take(k1) =~= breq.take(k1));
                assert forall|q: int| k1 <= q < after.len() implies #[trigger] cleanup_request(after[q], dv) by {
                    if q < breq.len() {
                        assert(after[q] == breq[q]);
                    }
                }
            }
            j += 1;
        }
        proof {
            let fin = adapter.requests();
            assert(fin.subrange(n0, k1) =~= r1.subrange(n0, k1));
            assert(reconcile_phase(fin.subrange(n0, k1), old(self)@.recovery->0));
        }
        match first_error {
            Some(error) => {
                self.last_runtime_error = Some(error.describe());
                return Err(error);
            },
            None => {},
        }
        self.expected_specs = desired;
        self.reconcile_required = false;
        self.current_mode = Some(mode);
        self.recovery_mode = None;
        self.recovery_specs = None;
        self.unresolved_specs.clear();
        self.rate_reset_required = true;
        self.last_runtime_error = None;
        proof {
            assert(self@.unresolved =~= Seq::<LinkSpecView>::empty());
        }
        Ok(())
    }

    /// Re-attaches every expected hook that went missing, after a pending
    /// reconciliation; a foreign filter in an owned slot, or any failure of
    /// the adapter, stops it and is recorded as a self-heal failure.
    pub fn ensure_attached<A: AyaAdapter<Link = L>>(
        &mut self,
        adapter: &mut A,
        reason: &str,
    ) -> (r: Result<usize, AdapterError>)
        ensures
            !old(self)@.reconcile_required && old(self)@.expected.len() == 0 ==> r == Ok::<
                usize,
                AdapterError,
            >(0) && final(self)@ == old(self)@,
            old(self)@.reconcile_required && old(self)@.recovery_mode is None ==> (r matches Err(e)
                && e.kind_view() == AdapterErrorKind::AttachFailed && e.message_view()
                == "missing mode for reconciliation"@ && final(self)@ == old(self)@),
            old(self)@.reconcile_required && old(self)@.recovery_mode is Some && old(self)@.recovery
                == Some(Seq::<LinkSpecView>::empty()) && old(self)@.owned.len() == 0
                && old(self)@.unresolved.len() == 0 ==> r == Ok::<usize, AdapterError>(0),
            r is Ok ==> !final(self)@.reconcile_required,
            r is Ok ==> final(self)@.expected == (if old(self)@.reconcile_required {
                old(self)@.recovery->0
            } else {
                old(self)@.expected
            }),
            r is Ok && (old(self)@.reconcile_required || all_expected_owned(old(self)@))
                ==> all_expected_owned(final(self)@),
            r matches Ok(n) ==> n <= final(self)@.expected.len(),
            r matches Ok(n) ==> (n > 0 ==> (final(self)@.recoveries
                == old(self)@.recoveries.saturating_add(1) && final(self)@.last_reason == Some(
                reason@) && final(self)@.last_failure is None && final(self)@.rate_reset_required
                && final(self)@.last_error is None)),
            r matches Ok(n) ==> (n == 0 ==> (final(self)@.recoveries == old(self)@.recoveries
                && final(self)@.last_reason == old(self)@.last_reason)),
            r is Ok ==> final(self)@.failures == old(self)@.failures,
            r matches Err(e) ==> (!old(self)@.reconcile_required ==> (final(self)@.failures
                == old(self)@.failures.saturating_add(1) && final(self)@.last_reason == Some(
                reason@) && final(self)@.last_failure == Some(e.message_view())
                && final(self)@.last_error == Some(e.message_view()))),
    {
        if self.reconcile_required {
            match self.reconcile(adapter) {
                Ok(()) => {},
                Err(e) => {
                    return Err(e);
                },
            }
        }
        let ghost base = self@;
        let mut restored: usize = 0;
        let specs = copy_specs(&self.expected_specs);
        let mut i: usize = 0;
        while i < specs.len()
            invariant
                specs_view(specs@) == base.expected,
                i <= specs.len(),
                restored <= i,
                base.expected.len() == 0 ==> restored == 0 && self@ == base,
                old(self)@.reconcile_required ==> old(self)@.recovery_mode is Some
                    && old(self)@.recovery is Some && base.expected == old(self)@.recovery->0,
                self@ == (BpfRuntimeView { owned: self@.owned, ..base }),
                !old(self)@.reconcile_required ==> base == old(self)@,
                all_expected_owned(base) ==> forall|k: int|
                    0 <= k < base.expected.len() ==> #[trigger] self@.owned.contains(base.expected[k]),
            decreases specs.len() - i,
        {
            let spec = &specs[i];
            let state = match adapter.inspect_hook(spec) {
                Ok(s) => s,
                Err(error) => {
                    self.require_reconciliation();
                    self.record_self_heal_failure(reason, &error);
                    return Err(error);
                },
            };
            match state {
                HookState::Foreign => {
                    let error = AdapterError::new(
                        AdapterErrorKind::OwnershipConflict,
                        "foreign filter replaced an owned slot",
                    );
                    self.require_reconciliation();
                    self.record_self_heal_failure(reason, &error);
                    return Err(error);
                },
                HookState::Absent => {
                    let ghost before = self@.owned;
                    match owned_index(&self.links, spec) {
                        Some(index) => {
                            proof {
                                lemma_link_specs_remove(self.links@, index as int);
                            }
                            let OwnedLink { spec: _stale_spec, link: stale } = self.links.remove(
                                index,
                            );
                            match adapter.forget_link(spec, stale) {
                                Ok(()) => {},
                                Err(error) => {
                                    self.record_self_heal_failure(reason, &error);
                                    return Err(error);
                                },
                            }
                            match adapter.attach_netlink(spec) {
                                Ok(link) => {
                                    let o = OwnedLink { spec: spec.copy(), link };
                                    proof {
                                        lemma_link_specs_push(self.links@, o);
                                        if all_expected_owned(base) {
                                            lemma_reinsert_keeps(before, index as int, spec@, base.expected);
                                        }
                                    }
                                    self.links.push(o);
                                    restored += 1;
                                },
                                Err(error) => {
                                    self.record_self_heal_failure(reason, &error);
                                    return Err(error);
                                },
                            }
                        },
                        None => {
                            match adapter.attach_netlink(spec) {
                                Ok(link) => {
                                    let o = OwnedLink { spec: spec.copy(), link };
                                    proof {
                                        lemma_link_specs_push(self.links@, o);
                                        assert forall|k: int| 0 <= k < base.expected.len() && all_expected_owned(base) implies #[trigger] before.push(spec@).contains(base.expected[k]) by {
                                            assert(before.contains(base.expected[k]));
                                            let w = choose|w: int| 0 <= w < before.len() && before[w] == base.expected[k];
                                            assert(before.push(spec@)[w] == base.expected[k]);
                                        }
                                    }
                                    self.links.push(o);
                                    restored += 1;
                                },
                                Err(error) => {
                                    self.record_self_heal_failure(reason, &error);
                                    return Err(error);
                                },
                            }
                        },
                    }
                },
                HookState::Owned => {},
            }
            i += 1;
        }
        if restored > 0 {
            self.self_heal_recoveries = self.self_heal_recoveries.saturating_add(1);
            self.last_self_heal_reason = Some(reason.to_owned());
            self.last_self_heal_failure = None;
            self.rate_reset_required = true;
            self.last_runtime_error = None;
        }
        Ok(restored)
    }

    fn owned_expected_count(&self) -> (r: usize)
        ensures
            r == owned_count(self@.expected, self@.owned),
    {
        let mut n: usize = 0;
        let mut i: usize = 0;
        while i < self.expected_specs.len()
            invariant
                i <= self.expected_specs.len(),
                n == owned_count(self@.expected.take(i as int), self@.owned),
                n <= i,
            decreases self.expected_specs.len() - i,
        {
            proof {
                assert(self@.expected == specs_view(self.expected_specs@));
                assert(self@.owned == link_specs(self.links@));
                assert(self@.expected.take(i + 1).drop_last() =~= self@.expected.take(i as int));
            }
            match owned_index(&self.links, &self.expected_specs[i]) {
                Some(k) => {
                    assert(self@.owned[k as int] == self@.expected[i as int]);
                    n += 1;
                },
                None => {},
            }
            i += 1;
        }
        assert(self@.expected.take(i as int) =~= self@.expected);
        n
    }

    /// What the runtime reports of itself at `now_ms`.
    pub fn health(&self, now_ms: u64, freshness_ms: u64) -> (r: BpfHealth)
        ensures
            r == spec_health(self@, now_ms, freshness_ms),
            r.map_read_ok ==> r.fresh_snapshot,
            r.attached_hook_count <= r.expected_hook_count,
            r.all_expected_hooks_attached ==> r.attached_hook_count == r.expected_hook_count
                && r.expected_hook_count > 0,
            self@.reconcile_required ==> r.mode is None,
    {
        let expected_hook_count = self.expected_specs.len();
        proof {
            assert(self@.expected.len() == self.expected_specs@.len());
            lemma_health_consistent(*self, now_ms, freshness_ms);
        }
        let fresh_snapshot = match self.last_complete_snapshot_ms {
            Some(sample_ms) => sample_ms <= now_ms && (freshness_ms == 0 || now_ms - sample_ms
                <= freshness_ms),
            None => false,
        };
        proof {
            lemma_owned_count_bound(self@.expected, self@.owned);
            assert(self@.expected.len() == self.expected_specs@.len());
        }
        BpfHealth {
            object_loaded: self.object_loaded,
            all_expected_hooks_attached: self.is_attached(),
            expected_hook_count,
            attached_hook_count: self.owned_expected_count(),
            map_read_attempted: self.map_read_attempted,
            map_read_ok: self.last_map_read_ok && fresh_snapshot,
            fresh_snapshot,
            last_complete_snapshot_ms: self.last_complete_snapshot_ms,
            snapshot_clients: self.snapshot_clients,
            mode: if self.reconcile_required {
                None
            } else {
                self.current_mode
            },
        }
    }

    /// The runtime's health in the shape the probes report it.
    pub fn runtime_health(&self, now_ms: u64, freshness_ms: u64) -> (r: RuntimeHealth)
        ensures
            ({
                let h = spec_health(self@, now_ms, freshness_ms);
                &&& r.bpf_object_loaded == h.object_loaded
                &&& r.bpf_attached == h.all_expected_hooks_attached
                &&& r.bpf_expected_hook_count == h.expected_hook_count
                &&& r.bpf_attached_hook_count == h.attached_hook_count
                &&& r.bpf_map_read_attempted == h.map_read_attempted
                &&& r.bpf_map_read_ok == h.map_read_ok
                &&& r.bpf_last_complete_snapshot_ms == h.last_complete_snapshot_ms
                &&& r.bpf_freshness_ms == freshness_ms
                &&& r.now_ms == now_ms
                &&& r.bpf_snapshot_clients == h.snapshot_clients
                &&& r.bpf_self_heal_recoveries == self@.recoveries
                &&& r.bpf_self_heal_failures == self@.failures
                &&& text_opt(r.bpf_self_heal_last_reason) == self@.last_reason
                &&& text_opt(r.bpf_self_heal_last_failure) == self@.last_failure
                &&& r.dae_early_bpf == (h.mode == Some(AttachMode::EarlyPassthrough))
                &&& text_opt(r.runtime_error) == self@.last_error
                &&& !r.conntrack_netlink_available
                &&& !r.conntrack_procfs_available
                &&& r.nss_sync_read_ok is None
            }),
    {
        let health = self.health(now_ms, freshness_ms);
        let early = match health.mode {
            Some(AttachMode::EarlyPassthrough) => true,
            _ => false,
        };
        RuntimeHealth {
            bpf_object_loaded: health.object_loaded,
            bpf_attached: health.all_expected_hooks_attached,
            bpf_expected_hook_count: health.expected_hook_count,
            bpf_attached_hook_count: health.attached_hook_count,
            bpf_map_read_attempted: health.map_read_attempted,
            bpf_map_read_ok: health.map_read_ok,
            bpf_last_complete_snapshot_ms: health.last_complete_snapshot_ms,
            bpf_freshness_ms: freshness_ms,
            now_ms,
            bpf_snapshot_clients: health.snapshot_clients,
            bpf_self_heal_recoveries: self.self_heal_recoveries,
            bpf_self_heal_failures: self.self_heal_failures,
            bpf_self_heal_last_reason: copy_text_opt(&self.last_self_heal_reason),
            bpf_self_heal_last_failure: copy_text_opt(&self.last_self_heal_failure),
            dae_early_bpf: early,
            runtime_error: copy_text_opt(&self.last_runtime_error),
            conntrack_netlink_available: false,
            conntrack_procfs_available: false,
            nss_sync_read_ok: None,
        }
    }

    /// Makes a prepared transaction the expectation: owned hooks outside it
    /// are handed back for detaching, in order.
    pub fn commit_reconfigure(
        &mut self,
        transaction: BpfReconfigureTxn,
        rate_baseline: ReconfigureRateBaseline,
    ) -> (r: BpfPostCommitCleanup<L>)
        ensures
            final(self)@ == (BpfRuntimeView {
                owned: kept_in(old(self)@.owned, transaction.desired_view()),
                expected: transaction.desired_view(),
                mode: Some(transaction.mode_view()),
                rate_reset_required: match rate_baseline {
                    ReconfigureRateBaseline::ResetOnNextCollection => old(self)@.rate_reset_required
                        || transaction.changed_view(),
                    ReconfigureRateBaseline::Prepared => false,
                },
                last_error: None,
                ..old(self)@
            }),
            r.obsolete_view() == dropped_from(old(self)@.owned, transaction.desired_view()),
    {
        let BpfReconfigureTxn { desired_specs, desired_mode, added_specs: _, topology_changed } =
            transaction;
        let ghost d = specs_view(desired_specs@);
        let ghost start = self@.owned;
        let mut obsolete: Vec<OwnedLink<L>> = Vec::new();
        let mut index: usize = 0;
        let ghost mut seen: int = 0;
        while index < self.links.len()
            invariant
                0 <= seen <= start.len(),
                index <= self.links.len(),
                d == specs_view(desired_specs@),
                self@ == (BpfRuntimeView { owned: self@.owned, ..old(self)@ }),
                kept_in(start.take(seen), d).len() == index,
                self@.owned == kept_in(start.take(seen), d) + start.skip(seen),
                link_specs(obsolete@) == dropped_from(start.take(seen), d),
                self.links@.len() == self@.owned.len(),
            decreases self.links.len() - index,
        {
            proof {
                assert(self@.owned[index as int] == start[seen]);
                assert(start.take(seen + 1).drop_last() =~= start.take(seen));
                assert(start.take(seen + 1).last() == start[seen]);
            }
            if holds_spec(&desired_specs, &self.links[index].spec) {
                proof {
                    assert(self.links@[index as int].spec@ == start[seen]);
                    assert(kept_in(start.take(seen + 1), d) =~= kept_in(start.take(seen), d).push(start[seen]));
                    assert(kept_in(start.take(seen + 1), d) + start.skip(seen + 1) =~= self@.owned);
                    seen = seen + 1;
                }
                index += 1;
            } else {
                proof {
                    assert(self.links@[index as int].spec@ == start[seen]);
                    lemma_link_specs_remove(self.links@, index as int);
                }
                let o = self.links.remove(index);
                proof {
                    lemma_link_specs_push(obsolete@, o);
                    assert(self@.owned =~= kept_in(start.take(seen + 1), d) + start.skip(seen + 1));
                    seen = seen + 1;
                }
                obsolete.push(o);
            }
        }
        proof {
            assert(start.skip(seen).len() == 0);
            assert(start.take(seen) =~= start);
            assert(self@.owned =~= kept_in(start, d));
        }
        self.expected_specs = desired_specs;
        self.current_mode = Some(desired_mode);
        match rate_baseline {
            ReconfigureRateBaseline::ResetOnNextCollection => {
                self.rate_reset_required = self.rate_reset_required || topology_changed;
            },
            ReconfigureRateBaseline::Prepared => {
                self.rate_reset_required = false;
            },
        }
        self.last_runtime_error = None;
        BpfPostCommitCleanup { obsolete }
    }

    /// Detaches the hooks a commit left behind; each one that fails to
    /// detach is remembered as unresolved and the first failure returned.
    pub fn run_postcommit_cleanup<A: AyaAdapter<Link = L>>(
        &mut self,
        adapter: &mut A,
        cleanup: BpfPostCommitCleanup<L>,
    ) -> (r: Result<(), AdapterError>)
        ensures
            final(self)@ == (BpfRuntimeView {
                unresolved: final(self)@.unresolved,
                last_error: final(self)@.last_error,
                ..old(self)@
            }),
            r is Ok ==> final(self)@.unresolved == old(self)@.unresolved && final(self)@.last_error
                is None,
            r matches Err(e) ==> final(self)@.last_error == Some(e.message_view()),
    {
        let mut obsolete = cleanup.obsolete;
        let mut first_error: Option<AdapterError> = None;
        while obsolete.len() > 0
            invariant
                self@ == (BpfRuntimeView { unresolved: self@.unresolved, ..old(self)@ }),
                first_error is None ==> self@.unresolved == old(self)@.unresolved,
            decreases obsolete.len(),
        {
            let OwnedLink { spec, link } = obsolete.remove(0);
            match adapter.detach_link(&spec, link) {
                Ok(()) => {},
                Err(error) => {
                    if first_error.is_none() {
                        first_error = Some(error);
                    }
                    self.note_unresolved(spec);
                },
            }
        }
        match first_error {
            Some(error) => {
                self.last_runtime_error = Some(error.describe());
                Err(error)
            },
            None => {
                self.last_runtime_error = None;
                Ok(())
            },
        }
    }

    /// Detaches the hooks a prepared transaction added, newest first. A
    /// failure leaves the hook unresolved, marks the runtime for
    /// reconciliation towards its current expectation, and is returned.
    fn detach_prepared_specs<A: AyaAdapter<Link = L>>(
        &mut self,
        adapter: &mut A,
        added_specs: Vec<LinkSpec>,
    ) -> (r: Result<(), AdapterError>)
        ensures
            r is Ok ==> final(self)@ == (BpfRuntimeView { owned: final(self)@.owned, ..old(self)@ }),
            r matches Err(e) ==> final(self)@ == (BpfRuntimeView {
                owned: final(self)@.owned,
                unresolved: final(self)@.unresolved,
                reconcile_required: true,
                recovery: if old(self)@.expected.len() > 0 && old(self)@.mode is Some {
                    Some(old(self)@.expected)
                } else {
                    old(self)@.recovery
                },
                recovery_mode: if old(self)@.expected.len() > 0 && old(self)@.mode is Some {
                    old(self)@.mode
                } else {
                    old(self)@.recovery_mode
                },
                last_error: Some(e.message_view()),
                ..old(self)@
            }),
    {
        let mut added = added_specs;
        let mut first_error: Option<AdapterError> = None;
        while added.len() > 0
            invariant
                self@ == (BpfRuntimeView {
                    owned: self@.owned,
                    unresolved: self@.unresolved,
                    ..old(self)@
                }),
                first_error is None ==> self@.unresolved == old(self)@.unresolved,
                self.links@.len() == self@.owned.len(),
            decreases added.len(),
        {
            let spec = added.pop().unwrap();
            match owned_index(&self.links, &spec) {
                Some(index) => {
                    proof {
                        lemma_link_specs_remove(self.links@, index as int);
                    }
                    let OwnedLink { spec: gone, link } = self.links.remove(index);
                    match adapter.detach_link(&gone, link) {
                        Ok(()) => {},
                        Err(error) => {
                            if first_error.is_none() {
                                first_error = Some(error);
                            }
                            self.note_unresolved(gone);
                        },
                    }
                    assert(self.links@.len() == self@.owned.len());
                },
                None => {},
            }
        }
        match first_error {
            Some(error) => {
                self.reconcile_required = true;
                if self.expected_specs.len() > 0 && self.current_mode.is_some() {
                    self.recovery_specs = Some(copy_specs(&self.expected_specs));
                    self.recovery_mode = self.current_mode;
                }
                self.last_runtime_error = Some(error.describe());
                Err(error)
            },
            None => Ok(()),
        }
    }

    /// Drops a prepared transaction, detaching what it added.
    pub fn abort_reconfigure<A: AyaAdapter<Link = L>>(
        &mut self,
        adapter: &mut A,
        transaction: BpfReconfigureTxn,
    ) -> (r: Result<(), AdapterError>)
        ensures
            r is Ok ==> final(self)@ == (BpfRuntimeView { owned: final(self)@.owned, ..old(self)@ }),
            r matches Err(e) ==> final(self)@.reconcile_required && final(self)@.last_error == Some(
                e.message_view(),
            ),
    {
        self.detach_prepared_specs(adapter, transaction.added_specs)
    }

    /// The error to report when preparing failed with `primary`: that one,
    /// unless undoing what was prepared failed too.
    fn abort_prepared_specs<A: AyaAdapter<Link = L>>(
        &mut self,
        adapter: &mut A,
        added_specs: Vec<LinkSpec>,
        primary: AdapterError,
    ) -> (r: AdapterError)
        ensures
            (final(self)@ == (BpfRuntimeView { owned: final(self)@.owned, ..old(self)@ }) && r
                == primary) || (r.kind_view() == AdapterErrorKind::DetachFailed
                && final(self)@.reconcile_required && final(self)@.last_error == Some(
                r.message_view(),
            )),
            final(self)@.expected == old(self)@.expected,
            final(self)@.mode == old(self)@.mode,
            final(self)@.object_loaded == old(self)@.object_loaded,
    {
        match self.detach_prepared_specs(adapter, added_specs) {
            Ok(()) => primary,
            Err(cleanup) => {
                let p = primary.describe();
                let c = cleanup.describe();
                let message = joined_text(p.as_str(), "; prepared hook cleanup failed: ", c.as_str());
                let error = AdapterError::from_message(AdapterErrorKind::DetachFailed, message);
                self.last_runtime_error = Some(error.describe());
                error
            },
        }
    }

    /// Removes every hook the runtime owns or left unresolved, then unloads
    /// the object. A hook taken over by a foreign filter is abandoned, not
    /// detached. Any failure keeps the object loaded, keeps what could not
    /// be removed, and is returned.
    pub fn shutdown<A: AyaAdapter<Link = L>>(&mut self, adapter: &mut A) -> (r: Result<
        (),
        AdapterError,
    >)
        ensures
            final(adapter).requests().len() >= old(adapter).requests().len(),
            final(adapter).requests().take(old(adapter).requests().len() as int) == old(
                adapter,
            ).requests(),
            r is Ok ==> ({
                let after = final(adapter).requests();
                let seg = after.subrange(old(adapter).requests().len() as int, after.len() - 1);
                &&& after.len() > old(adapter).requests().len()
                &&& after.last() is Unload
                &&& shutdown_requested(seg, old(self)@.unresolved, old(self)@.owned)
                &&& first_error(seg) is None
            }),
            r matches Err(e) ==> ({
                let after = final(adapter).requests();
                let seg = after.subrange(old(adapter).requests().len() as int, after.len() as int);
                let m = owned_start(seg, old(self)@.owned);
                &&& shutdown_requested(seg, old(self)@.unresolved, old(self)@.owned)
                &&& first_error(seg) == Some(e)
                &&& final(self)@.owned == owned_kept(seg, old(self)@.owned)
                &&& forall|x: LinkSpecView| #[trigger] final(self)@.unresolved.contains(x) <==> pending_failed(
                    seg.take(m),
                    old(self)@.unresolved,
                ).contains(x) || owned_failed(seg, old(self)@.owned).contains(x)
            }),
            r is Ok ==> !final(self)@.object_loaded && final(self)@.owned.len() == 0
                && final(self)@.expected.len() == 0 && final(self)@.unresolved.len() == 0
                && !final(self)@.reconcile_required && final(self)@.mode is None
                && final(self)@.recovery_mode is None && final(self)@.recovery is None,
            r matches Err(e) ==> final(self)@.object_loaded == old(self)@.object_loaded
                && final(self)@.expected == old(self)@.expected && final(self)@.last_error == Some(
                e.message_view(),
            ),
    {
        let ghost r0 = adapter.requests();
        let ghost n0 = r0.len() as int;
        let ghost p = self@.unresolved;
        let ghost o = self@.owned;
        let mut first_error_seen: Option<AdapterError> = None;
        let mut pending: Vec<LinkSpec> = Vec::new();
        std::mem::swap(&mut pending, &mut self.unresolved_specs);
        proof {
            assert(self@.unresolved =~= Seq::<LinkSpecView>::empty());
            assert(adapter.requests().subrange(n0, adapter.requests().len() as int) =~= Seq::<AdapterRequest>::empty());
            assert(p.take(0) =~= Seq::<LinkSpecView>::empty());
            assert(adapter.requests().take(n0) =~= r0);
        }
        let mut j: usize = 0;
        while j < pending.len()
            invariant
                j <= pending.len(),
                specs_view(pending@) == p,
                adapter.requests().len() >= n0,
                adapter.requests().take(n0) == r0,
                n0 == r0.len(),
                pending_phase(adapter.requests().subrange(n0, adapter.requests().len() as int), p.take(j as int)),
                first_error_seen == first_error(adapter.requests().subrange(n0, adapter.requests().len() as int)),
                forall|x: LinkSpecView| #[trigger] self@.unresolved.contains(x) <==> pending_failed(
                    adapter.requests().subrange(n0, adapter.requests().len() as int),
                    p.take(j as int),
                ).contains(x),
                self@.object_loaded == old(self)@.object_loaded,
                self@.expected == old(self)@.expected,
                self@.owned == old(self)@.owned,
                o == old(self)@.owned,
                self.links@.len() == self@.owned.len(),
            decreases pending.len() - j,
        {
            let spec = &pending[j];
            let ghost before = adapter.requests();
            let ghost seg0 = before.subrange(n0, before.len() as int);
            let ghost u0 = self@.unresolved;
            let ghost fe0 = first_error_seen;
            assert(spec@ == p[j as int]);
            let state = adapter.inspect_hook(spec);
            let ghost mid = adapter.requests();
            let ghost mut noted = false;
            match state {
                Ok(HookState::Absent) => {},
                Ok(HookState::Foreign) => {
                    self.last_runtime_error = Some(
                        hook_message_text("foreign filter replaced owned shutdown slot", spec),
                    );
                },
                Ok(HookState::Owned) => {
                    match adapter.detach_exact(spec) {
                        Ok(()) => {},
                        Err(error) => {
                            if first_error_seen.is_none() {
                                first_error_seen = Some(error);
                            }
                            self.note_unresolved(spec.copy());
                            proof {
                                noted = true;
                            }
                        },
                    }
                },
                Err(error) => {
                    if first_error_seen.is_none() {
                        first_error_seen = Some(error);
                    }
                    self.note_unresolved(spec.copy());
                    proof {
                        noted = true;
                    }
                },
            }
            proof {
                let after = adapter.requests();
                let seg = after.subrange(n0, after.len() as int);
                let l = after.len() - before.len();
                let blk = seg.subrange(seg.len() - l, seg.len() as int);
                assert(mid.take(n0) =~= before.take(n0));
                assert(after.take(n0) =~= mid.take(n0));
                assert(seg.take(seg.len() - l) =~= seg0);
                assert(p.take(j + 1).drop_last() =~= p.take(j as int));
                assert(p.take(j + 1).last() == p[j as int]);
                assert(blk =~= after.subrange(before.len() as int, after.len() as int));
                assert(seg.last() == after.last());
                if l == 1 {
                    assert(seg =~= seg0.push(after.last()));
                    lemma_first_error_push(seg0, after.last());
                } else {
                    assert(seg =~= seg0.push(mid.last()).push(after.last()));
                    lemma_first_error_push(seg0, mid.last());
                    lemma_first_error_push(seg0.push(mid.last()), after.last());
                    assert(seg.drop_last() =~= seg0.push(mid.last()));
                    assert(seg.drop_last().drop_last() =~= seg0);
                }
                assert(last_block_len(seg) == l);
                assert(block_failed(blk) == (req_error(blk[0]) is Some || (l == 2 && req_error(blk[1]) is Some)));
                assert(noted == block_failed(blk));
                assert(pending_failed(seg, p.take(j + 1)) == if block_failed(blk) {
                    pending_failed(seg0, p.take(j as int)).push(p[j as int])
                } else {
                    pending_failed(seg0, p.take(j as int))
                });
                let pf = pending_failed(seg0, p.take(j as int));
                assert(forall|x: LinkSpecView| #[trigger] u0.contains(x) <==> pf.contains(x));
                if noted {
                    assert(self@.unresolved == if u0.contains(p[j as int]) {
                        u0
                    } else {
                        u0.push(p[j as int])
                    });
                } else {
                    assert(self@.unresolved == u0);
                }
                lemma_noted(u0, self@.unresolved, p[j as int], pf, noted);
            }
            j += 1;
        }
        let ghost m1 = adapter.requests().len() - n0;
        let ghost r1 = adapter.requests();
        let ghost u1 = self@.unresolved;
        let ghost pf1 = pending_failed(r1.subrange(n0, r1.len() as int), p.take(j as int));
        assert(forall|x: LinkSpecView| #[trigger] u1.contains(x) <==> pf1.contains(x));
        proof {
            assert(j == p.len());
            assert(p.take(j as int) =~= p);
            assert(r1.subrange(n0, n0 + m1) =~= r1.subrange(n0, r1.len() as int));
            assert(r1.take(n0 + m1) =~= r1);
        }
        let mut owned: Vec<OwnedLink<L>> = Vec::new();
        std::mem::swap(&mut owned, &mut self.links);
        proof {
            assert(self@.owned =~= Seq::<LinkSpecView>::empty());
            assert(link_specs(owned@) == o);
            assert(o.skip(0) =~= o);
            assert(o.take(0) =~= Seq::<LinkSpecView>::empty());
            let seg = adapter.requests().subrange(n0, adapter.requests().len() as int);
            assert(seg =~= r1.subrange(n0, n0 + m1));
            assert(owned_failed(seg, o.take(0)) =~= Seq::<LinkSpecView>::empty());
            assert(owned_kept(seg, o.take(0)) =~= Seq::<LinkSpecView>::empty());
            assert(o.len() - owned@.len() == 0);
            assert(self@.unresolved == u1);
            assert(pf1 == pending_failed(r1.subrange(n0, n0 + m1), p));
            assert(pending_failed(r1.subrange(n0, n0 + m1), p) + owned_failed(seg, o.take(0)) =~= pf1);
        }
        while owned.len() > 0
            invariant
                link_specs(owned@) == o.skip(o.len() - owned@.len()),
                owned@.len() <= o.len(),
                n0 == r0.len(),
                adapter.requests().len() >= n0 + m1,
                adapter.requests().take(n0) == r0,
                adapter.requests().take(n0 + m1) == r1,
                r1.len() == n0 + m1,
                r1.take(n0) == r0,
                m1 >= 0,
                pending_phase(r1.subrange(n0, n0 + m1), p),
                owned_phase(adapter.requests().subrange(n0, adapter.requests().len() as int), o.take(o.len() - owned@.len())),
                owned_start(adapter.requests().subrange(n0, adapter.requests().len() as int), o.take(o.len() - owned@.len())) == m1,
                first_error_seen == first_error(adapter.requests().subrange(n0, adapter.requests().len() as int)),
                self@.owned == owned_kept(adapter.requests().subrange(n0, adapter.requests().len() as int), o.take(o.len() - owned@.len())),
                self.links@.len() == self@.owned.len(),
                forall|x: LinkSpecView| #[trigger] self@.unresolved.contains(x) <==> (pending_failed(
                    r1.subrange(n0, n0 + m1),
                    p,
                ) + owned_failed(adapter.requests().subrange(n0, adapter.requests().len() as int), o.take(o.len() - owned@.len()))).contains(x),
                self@.object_loaded == old(self)@.object_loaded,
                self@.expected == old(self)@.expected,
            decreases owned.len(),
        {
            let ghost k = o.len() - owned@.len();
            let ghost before = adapter.requests();
            let ghost seg0 = before.subrange(n0, before.len() as int);
            let ghost kept0 = self@.owned;
            let ghost u0 = self@.unresolved;
            proof {
                assert(link_specs(owned@)[0] == o[k]);
                assert(owned@[0].spec@ == o[k]);
                lemma_link_specs_remove(owned@, 0);
            }
            let OwnedLink { spec, link } = owned.remove(0);
            proof {
                assert(link_specs(owned@) =~= o.skip(k + 1));
            }
            let state = adapter.inspect_hook(&spec);
            let ghost mid = adapter.requests();
            let ghost mut noted = false;
            match state {
                Ok(HookState::Foreign) => {
                    match adapter.abandon_link(&spec, link) {
                        Ok(()) => {
                            self.last_runtime_error = Some(
                                hook_message_text(
                                    "foreign filter replaced owned shutdown slot",
                                    &spec,
                                ),
                            );
                        },
                        Err(error) => {
                            if first_error_seen.is_none() {
                                first_error_seen = Some(error);
                            }
                            self.note_unresolved(spec);
                            proof {
                                noted = true;
                            }
                        },
                    }
                },
                Ok(HookState::Absent) => {
                    match adapter.forget_link(&spec, link) {
                        Ok(()) => {},
                        Err(error) => {
                            if first_error_seen.is_none() {
                                first_error_seen = Some(error);
                            }
                            self.note_unresolved(spec);
                            proof {
                                noted = true;
                            }
                        },
                    }
                },
                Ok(HookState::Owned) => {
                    match adapter.detach_link(&spec, link) {
                        Ok(()) => {},
                        Err(error) => {
                            if first_error_seen.is_none() {
                                first_error_seen = Some(error);
                            }
                            self.note_unresolved(spec);
                            proof {
                                noted = true;
                            }
                        },
                    }
                },
                Err(error) => {
                    if first_error_seen.is_none() {
                        first_error_seen = Some(error);
                    }
                    let o_link = OwnedLink { spec, link };
                    proof {
                        lemma_link_specs_push(self.links@, o_link);
                    }
                    self.links.push(o_link);
                },
            }
            proof {
                let after = adapter.requests();
                let seg = after.subrange(n0, after.len() as int);
                let l = after.len() - before.len();
                let blk = seg.subrange(seg.len() - l, seg.len() as int);
                assert(mid.take(n0 + m1) =~= before.take(n0 + m1));
                assert(after.take(n0 + m1) =~= mid.take(n0 + m1));
                assert(mid.take(n0) =~= before.take(n0));
                assert(after.take(n0) =~= mid.take(n0));
                assert(seg.take(seg.len() - l) =~= seg0);
                assert(o.take(k + 1).drop_last() =~= o.take(k));
                assert(o.take(k + 1).last() == o[k]);
                assert(blk =~= after.subrange(before.len() as int, after.len() as int));
                if l == 1 {
                    assert(seg =~= seg0.push(after.last()));
                    lemma_first_error_push(seg0, after.last());
                } else {
                    assert(seg =~= seg0.push(mid.last()).push(after.last()));
                    lemma_first_error_push(seg0, mid.last());
                    lemma_first_error_push(seg0.push(mid.last()), after.last());
                    assert(seg.drop_last() =~= seg0.push(mid.last()));
                    assert(seg.drop_last().drop_last() =~= seg0);
                }
                assert(last_block_len(seg) == l);
                assert(owned_block(blk, o[k]));
                assert(owned_start(seg, o.take(k + 1)) == owned_start(seg0, o.take(k)));
                if l == 1 {
                    assert(self@.owned =~= kept0.push(o[k]));
                }
                assert(owned_kept(seg, o.take(k + 1)) == if l == 1 {
                    owned_kept(seg0, o.take(k)).push(o[k])
                } else {
                    owned_kept(seg0, o.take(k))
                });
                let pfp = pending_failed(r1.subrange(n0, n0 + m1), p);
                let of0 = owned_failed(seg0, o.take(k));
                assert(noted == (l == 2 && req_error(seg.last()) is Some));
                assert(owned_failed(seg, o.take(k + 1)) == if noted {
                    of0.push(o[k])
                } else {
                    of0
                });
                if noted {
                    assert(self@.unresolved == if u0.contains(o[k]) {
                        u0
                    } else {
                        u0.push(o[k])
                    });
                    assert(pfp + of0.push(o[k]) =~= (pfp + of0).push(o[k]));
                } else {
                    assert(self@.unresolved == u0);
                }
                lemma_noted(u0, self@.unresolved, o[k], pfp + of0, noted);
            }
        }
        let ghost seg_all = adapter.requests().subrange(n0, adapter.requests().len() as int);
        proof {
            assert(o.take(o.len() as int) =~= o);
            assert(seg_all.take(m1) =~= r1.subrange(n0, n0 + m1));
        }
        proof {
            assert(owned_start(seg_all, o) == m1);
            assert(owned_phase(seg_all, o));
            assert(self@.owned == owned_kept(seg_all, o));
            assert(seg_all.len() >= m1);
            let pfp = pending_failed(r1.subrange(n0, n0 + m1), p);
            let of = owned_failed(seg_all, o);
            assert forall|x: LinkSpecView| (pfp + of).contains(x) <==> pfp.contains(x) || of.contains(x) by {
                if (pfp + of).contains(x) {
                    let w = choose|w: int| 0 <= w < (pfp + of).len() && (pfp + of)[w] == x;
                    if w < pfp.len() {
                        assert(pfp[w] == x);
                    } else {
                        assert(of[w - pfp.len()] == x);
                    }
                }
                if pfp.contains(x) {
                    let w = choose|w: int| 0 <= w < pfp.len() && pfp[w] == x;
                    assert((pfp + of)[w] == x);
                }
                if of.contains(x) {
                    let w = choose|w: int| 0 <= w < of.len() && of[w] == x;
                    assert((pfp + of)[pfp.len() + w] == x);
                }
            }
            assert(owned@.len() == 0);
            assert(o.take(o.len() - owned@.len()) == o);
            assert forall|x: LinkSpecView| #[trigger] self@.unresolved.contains(x) <==> pending_failed(seg_all.take(m1), p).contains(x)
                || of.contains(x) by {
                assert(self@.unresolved.contains(x) <==> (pfp + of).contains(x));
                assert((pfp + of).contains(x) <==> pfp.contains(x) || of.contains(x));
            }
            assert(shutdown_requested(seg_all, p, o));
            assert(adapter.requests().subrange(n0, adapter.requests().len() as int) == seg_all);
        }
        let ghost ufinal = self@.unresolved;
        let ghost ofinal = self@.owned;
        assert(forall|x: LinkSpecView| #[trigger] ufinal.contains(x) <==> pending_failed(seg_all.take(m1), p).contains(x)
            || owned_failed(seg_all, o).contains(x));
        match first_error_seen {
            Some(error) => {
                self.last_runtime_error = Some(error.describe());
                proof {
                    assert(self@.unresolved == ufinal);
                    assert(self@.owned == ofinal);
                    assert(p == old(self)@.unresolved);
                    assert(o == old(self)@.owned);
                    assert(n0 == old(adapter).requests().len());
                    let after = adapter.requests();
                    let seg = after.subrange(n0, after.len() as int);
                    assert(seg == seg_all);
                    assert(owned_start(seg, o) == m1);
                    assert(first_error(seg) == Some(error));
                }
                return Err(error);
            },
            None => {},
        }
        self.expected_specs.clear();
        self.reconcile_required = false;
        self.current_mode = None;
        self.recovery_mode = None;
        self.recovery_specs = None;
        self.object_loaded = false;
        adapter.unload();
        proof {
            assert(self@.expected =~= Seq::<LinkSpecView>::empty());
            let after = adapter.requests();
            assert(after.subrange(n0, after.len() - 1) =~= seg_all);
            assert(after.take(n0) =~= r0);
            assert(self@.owned.len() == 0) by {
                lemma_no_error_keeps_none(seg_all, o);
            }
            assert(self@.unresolved.len() == 0) by {
                lemma_no_error_keeps_none(seg_all, o);
                lemma_first_error_prefix(seg_all, m1);
                lemma_no_error_pending(seg_all.take(m1), p);
                let tot = pending_failed(r1.subrange(n0, n0 + m1), p) + owned_failed(seg_all, o);
                assert(tot.len() == 0);
                assert(self@.unresolved == ufinal);
                if self@.unresolved.len() > 0 {
                    let x = self@.unresolved[0];
                    assert(self@.unresolved.contains(x));
                    assert(pending_failed(seg_all.take(m1), p).contains(x) || owned_failed(seg_all, o).contains(x));
                }
                if self@.unresolved.len() > 0 {
                    assert(self@.unresolved.contains(self@.unresolved[0]));
                }
            }
        }
        Ok(())
    }

    /// Pops the links past `start`, detaching each; a link that fails to
    /// detach is left unresolved and marks the runtime for reconciliation
    /// towards `recovery`.
    fn roll_back_links<A: AyaAdapter<Link = L>>(
        &mut self,
        adapter: &mut A,
        start: usize,
        error: &AdapterError,
        recovery: &Vec<LinkSpec>,
        recovery_mode: Option<AttachMode>,
    )
        requires
            start <= old(self)@.owned.len(),
        ensures
            final(self)@.owned == old(self)@.owned.take(start as int),
            final(self)@.expected == old(self)@.expected,
            final(self)@.mode == old(self)@.mode,
            final(self)@.object_loaded == old(self)@.object_loaded,
    {
        while self.links.len() > start
            invariant
                start <= self.links.len(),
                self@.owned == old(self)@.owned.take(self.links.len() as int),
                self.links@.len() == self@.owned.len(),
                self.links@.len() <= old(self)@.owned.len(),
                self@.expected == old(self)@.expected,
                self@.mode == old(self)@.mode,
                self@.object_loaded == old(self)@.object_loaded,
                start <= old(self)@.owned.len(),
            decreases self.links.len(),
        {
            let ghost before = self@.owned;
            let ghost n = self.links@.len();
            proof {
                lemma_link_specs_remove(self.links@, n - 1);
                assert(self.links@.remove(n - 1) =~= self.links@.drop_last());
            }
            let OwnedLink { spec, link } = self.links.pop().unwrap();
            proof {
                assert(self@.owned =~= before.drop_last());
                assert(before.drop_last() =~= old(self)@.owned.take(n - 1));
            }
            match adapter.detach_link(&spec, link) {
                Ok(()) => {},
                Err(rollback) => {
                    self.reconcile_required = true;
                    self.recovery_specs = Some(copy_specs(recovery));
                    self.recovery_mode = recovery_mode;
                    self.note_unresolved(spec);
                    let e = error.describe();
                    let r = rollback.describe();
                    self.last_runtime_error = Some(
                        joined_text(e.as_str(), "; rollback detach failed: ", r.as_str()),
                    );
                },
            }
            assert(self.links@.len() == self@.owned.len());
        }
    }

    /// Attaches the two hooks of `interface` in `mode`, adopting hooks it
    /// already owns and replacing its own stale ones; a foreign filter in
    /// either slot refuses the whole interface. A failure rolls back what
    /// this call attached.
    pub fn attach_interface<A: AyaAdapter<Link = L>>(
        &mut self,
        adapter: &mut A,
        interface: &str,
        mode: AttachMode,
    ) -> (r: Result<(), AdapterError>)
        ensures
            r is Ok ==> spec_pair(interface@, mode).len() == 2 && final(self)@.owned.contains(
                spec_pair(interface@, mode)[0],
            ) && final(self)@.owned.contains(spec_pair(interface@, mode)[1]),
            r is Ok ==> final(self)@ == old(self)@ || (final(self)@.expected == extend_unique(
                old(self)@.expected,
                spec_pair(interface@, mode),
            ) && final(self)@.mode == Some(mode) && final(self)@.last_error is None),
            r is Ok ==> forall|i: int|
                0 <= i < old(self)@.owned.len() ==> #[trigger] final(self)@.owned.contains(
                    old(self)@.owned[i],
                ),
            r is Err ==> final(self)@.expected == old(self)@.expected && final(self)@.mode == old(
                self,
            )@.mode && final(self)@.object_loaded == old(self)@.object_loaded,
            old(self)@.owned.len() <= final(self)@.owned.len(),
            final(self)@.owned.take(old(self)@.owned.len() as int) == old(self)@.owned,
            old(self)@.expected.len() <= final(self)@.expected.len(),
            final(self)@.expected.take(old(self)@.expected.len() as int) == old(self)@.expected,
            final(self)@.object_loaded == old(self)@.object_loaded,
    {
        let previous_specs = copy_specs(&self.expected_specs);
        let previous_mode = self.current_mode;
        match adapter.ensure_clsact(interface) {
            Ok(()) => {},
            Err(e) => {
                return Err(e);
            },
        }
        let specs = LinkSpec::pair(interface, mode);
        let ghost pv = spec_pair(interface@, mode);
        let s0 = match adapter.inspect_hook(&specs[0]) {
            Ok(s) => s,
            Err(e) => {
                return Err(e);
            },
        };
        let s1 = match adapter.inspect_hook(&specs[1]) {
            Ok(s) => s,
            Err(e) => {
                return Err(e);
            },
        };
        match foreign_slot_refusal(&specs, s0, s1) {
            Some(refusal) => {
                return Err(refusal);
            },
            None => {},
        }
        let o0 = owned_index(&self.links, &specs[0]).is_some();
        let o1 = owned_index(&self.links, &specs[1]).is_some();
        if s0 == HookState::Owned && o0 && s1 == HookState::Owned && o1 {
            return Ok(());
        }
        let ghost start_owned = self@.owned;
        let start = self.links.len();
        let states = [s0, s1];
        let mut k: usize = 0;
        while k < 2
            invariant
                k <= 2,
                pv == spec_pair(interface@, mode),
                pv == seq![specs[0]@, specs[1]@],
                start <= self.links.len(),
                self.links@.len() == self@.owned.len(),
                self@.owned.take(start as int) == start_owned,
                start_owned.len() == start,
                start_owned == old(self)@.owned,
                self@ == (BpfRuntimeView { owned: self@.owned, ..old(self)@ }),
                specs_view(previous_specs@) == old(self)@.expected,
                previous_mode == old(self)@.mode,
                forall|j: int| 0 <= j < k ==> #[trigger] self@.owned.contains(pv[j]),
            decreases 2 - k,
        {
            let ghost before = self@.owned;
            let spec = &specs[k];
            let state = states[k];
            let already = match owned_index(&self.links, spec) {
                Some(x) => {
                    assert(self@.owned[x as int] == spec@);
                    true
                },
                None => false,
            };
            if state == HookState::Owned && already {
                k += 1;
            } else {
                let attached = if state == HookState::Owned {
                    adapter.replace_owned_netlink_atomic(spec)
                } else {
                    adapter.attach_netlink(spec)
                };
                match attached {
                    Ok(link) => {
                        let o = OwnedLink { spec: spec.copy(), link };
                        proof {
                            lemma_link_specs_push(self.links@, o);
                        }
                        self.links.push(o);
                        proof {
                            assert(self@.owned.take(start as int) =~= before.take(start as int));
                            assert(self@.owned[self@.owned.len() - 1] == pv[k as int]);
                            assert forall|j: int| 0 <= j < k + 1 implies #[trigger] self@.owned.contains(pv[j]) by {
                                if j < k {
                                    assert(before.contains(pv[j]));
                                    let w = choose|w: int| 0 <= w < before.len() && before[w] == pv[j];
                                    assert(self@.owned[w] == pv[j]);
                                }
                            }
                        }
                        k += 1;
                    },
                    Err(error) => {
                        self.roll_back_links(adapter, start, &error, &previous_specs, previous_mode);
                        proof {
                            assert(self@.owned =~= old(self)@.owned);
                            assert(self@.expected.take(old(self)@.expected.len() as int) =~= old(self)@.expected);
                            assert(self@.owned.take(old(self)@.owned.len() as int) =~= old(self)@.owned);
                        }
                        if self.last_runtime_error.is_none() {
                            self.last_runtime_error = Some(error.describe());
                        }
                        return Err(error);
                    },
                }
            }
        }
        let ghost mid = self@.owned;
        proof {
            let e = old(self)@.expected;
            assert(pv.drop_last() =~= seq![specs[0]@]);
            assert(seq![specs[0]@].drop_last() =~= Seq::<LinkSpecView>::empty());
            assert(extend_unique(e, Seq::<LinkSpecView>::empty()) == e);
            assert(extend_unique(e, seq![specs[0]@]) == (if e.contains(specs[0]@) {
                e
            } else {
                e.push(specs[0]@)
            }));
        }
        let extra0 = specs[0].copy();
        let extra1 = specs[1].copy();
        push_unique_spec(&mut self.expected_specs, extra0);
        push_unique_spec(&mut self.expected_specs, extra1);
        self.current_mode = Some(mode);
        self.last_runtime_error = None;
        proof {
            assert(self@.expected.take(old(self)@.expected.len() as int) =~= old(self)@.expected);
            assert(self@.owned.take(start as int) =~= old(self)@.owned);
            assert(self@.owned == mid);
            assert forall|i: int| 0 <= i < old(self)@.owned.len() implies #[trigger] self@.owned.contains(
                old(self)@.owned[i],
            ) by {
                assert(self@.owned.take(start as int)[i] == old(self)@.owned[i]);
                assert(self@.owned[i] == old(self)@.owned[i]);
            }
        }
        Ok(())
    }

    /// Attaches every interface in turn; a failure undoes what this call
    /// attached and restores the expectation and mode it found.
    pub fn attach_interfaces<A: AyaAdapter<Link = L>>(
        &mut self,
        adapter: &mut A,
        interfaces: &Vec<String>,
        mode: AttachMode,
    ) -> (r: Result<(), AdapterError>)
        ensures
            r is Ok ==> forall|i: int|
                0 <= i < interfaces.len() ==> #[trigger] interface_owned(
                    final(self)@,
                    interfaces@[i]@,
                    mode,
                ),
            r is Err ==> final(self)@.expected == old(self)@.expected && final(self)@.mode == old(
                self,
            )@.mode,
            interfaces.len() == 0 ==> r is Ok && final(self)@ == old(self)@,
            r is Ok ==> old(self)@.owned.len() <= final(self)@.owned.len() && final(self)@.owned.take(
                old(self)@.owned.len() as int,
            ) == old(self)@.owned,
            final(self)@.object_loaded == old(self)@.object_loaded,
    {
        let start = self.links.len();
        let previous_expected = self.expected_specs.len();
        let previous_mode = self.current_mode;
        let mut i: usize = 0;
        while i < interfaces.len()
            invariant
                i <= interfaces.len(),
                start <= self.links.len(),
                start == old(self)@.owned.len(),
                self@.owned.take(start as int) == old(self)@.owned,
                self.links@.len() == self@.owned.len(),
                previous_expected <= self.expected_specs.len(),
                self@.expected.len() == self.expected_specs@.len(),
                self@.expected.take(previous_expected as int) == old(self)@.expected,
                previous_expected == old(self)@.expected.len(),
                previous_mode == old(self)@.mode,
                self@.object_loaded == old(self)@.object_loaded,
                forall|j: int|
                    0 <= j < i ==> #[trigger] interface_owned(self@, interfaces@[j]@, mode),
                interfaces.len() == 0 ==> self@ == old(self)@,
            decreases interfaces.len() - i,
        {
            let ghost before = self@;
            match self.attach_interface(adapter, interfaces[i].as_str(), mode) {
                Ok(()) => {
                    proof {
                        assert(self@.owned.take(start as int) =~= self@.owned.take(
                            before.owned.len() as int,
                        ).take(start as int));
                        assert(self@.expected.take(previous_expected as int) =~= self@.expected.take(
                            before.expected.len() as int,
                        ).take(previous_expected as int));
                        assert forall|j: int| 0 <= j < i + 1 implies #[trigger] interface_owned(
                            self@,
                            interfaces@[j]@,
                            mode,
                        ) by {
                            if j < i {
                                let p = spec_pair(interfaces@[j]@, mode);
                                assert(interface_owned(before, interfaces@[j]@, mode));
                                let w0 = choose|w: int| 0 <= w < before.owned.len() && before.owned[w] == p[0];
                                let w1 = choose|w: int| 0 <= w < before.owned.len() && before.owned[w] == p[1];
                                assert(self@.owned.contains(before.owned[w0]));
                                assert(self@.owned.contains(before.owned[w1]));
                            }
                        }
                    }
                },
                Err(error) => {
                    let recovery = copy_specs(&self.expected_specs);
                    let mut recovery = recovery;
                    recovery.truncate(previous_expected);
                    self.roll_back_links(adapter, start, &error, &recovery, previous_mode);
                    self.expected_specs.truncate(previous_expected);
                    self.current_mode = previous_mode;
                    proof {
                        assert(self@.expected =~= old(self)@.expected);
                    }
                    return Err(error);
                },
            }
            i += 1;
        }
        Ok(())
    }

    /// Attaches every hook the interfaces need in `desired_mode` beside the
    /// current ones, as a transaction to commit or abort. Hooks already owned
    /// are kept; an owned hook gone missing, a foreign filter, or an occupied
    /// slot refuses the transaction and detaches what it added.
    pub fn prepare_reconfigure<A: AyaAdapter<Link = L>>(
        &mut self,
        adapter: &mut A,
        interfaces: &Vec<String>,
        desired_mode: AttachMode,
    ) -> (r: Result<BpfReconfigureTxn, AdapterError>)
        ensures
            old(self)@.reconcile_required ==> (r matches Err(e) && e.kind_view()
                == AdapterErrorKind::AttachFailed && e.message_view()
                == "BPF hooks require reconciliation before reconfigure"@ && final(self)@ == old(
                self,
            )@),
            r matches Ok(t) ==> !old(self)@.reconcile_required && links_sorted(t.desired_view())
                && same_hooks(
                t.desired_view(),
                interface_pairs(crate::control::texts(interfaces@), desired_mode),
            ) && t.mode_view() == desired_mode && t.changed_view() == (old(self)@.mode != Some(
                desired_mode,
            ) || !same_hooks(old(self)@.expected, t.desired_view())) && final(self)@ == (
            BpfRuntimeView { owned: final(self)@.owned, ..old(self)@ }) && (forall|i: int|
                0 <= i < t.desired_view().len() ==> #[trigger] final(self)@.owned.contains(
                    t.desired_view()[i],
                )) && (forall|i: int|
                0 <= i < old(self)@.owned.len() ==> #[trigger] final(self)@.owned.contains(
                    old(self)@.owned[i],
                )),
            r is Err ==> final(self)@.expected == old(self)@.expected && final(self)@.mode == old(
                self,
            )@.mode && final(self)@.object_loaded == old(self)@.object_loaded,
    {
        if self.reconcile_required {
            return Err(
                AdapterError::new(
                    AdapterErrorKind::AttachFailed,
                    "BPF hooks require reconciliation before reconfigure",
                ),
            );
        }
        let all = pairs_of(interfaces, desired_mode);
        let desired_specs = sorted_unique(&all);
        let old_sorted = sorted_unique(&self.expected_specs);
        let same_topology = match self.current_mode {
            Some(m) => m == desired_mode,
            None => false,
        } && specs_equal(&old_sorted, &desired_specs);
        let topology_changed = !same_topology;
        proof {
            let d = specs_view(desired_specs@);
            let o = specs_view(old_sorted@);
            let e = old(self)@.expected;
            if same_hooks(e, d) {
                assert forall|x: LinkSpecView| #![trigger o.contains(x)] #![trigger d.contains(x)] o.contains(x) <==> d.contains(x) by {
                    assert(o.contains(x) <==> e.contains(x));
                    assert(e.contains(x) <==> d.contains(x));
                }
                lemma_sorted_same_hooks_equal(o, d);
            }
            if o == d {
                assert forall|x: LinkSpecView| #![trigger e.contains(x)] #![trigger d.contains(x)] e.contains(x) <==> d.contains(x) by {
                    assert(o.contains(x) <==> e.contains(x));
                }
            }
        }
        let added_specs: Vec<LinkSpec> = Vec::new();
        let mut added_specs = added_specs;
        let mut k: usize = 0;
        while k < interfaces.len()
            invariant
                k <= interfaces.len(),
                self@ == old(self)@,
                !old(self)@.reconcile_required,
                added_specs@.len() == 0,
            decreases interfaces.len() - k,
        {
            match adapter.ensure_clsact(interfaces[k].as_str()) {
                Ok(()) => {},
                Err(error) => {
                    return Err(self.abort_prepared_specs(adapter, added_specs, error));
                },
            }
            k += 1;
        }
        let ghost dv = specs_view(desired_specs@);
        let mut j: usize = 0;
        while j < desired_specs.len()
            invariant
                j <= desired_specs.len(),
                !old(self)@.reconcile_required,
                dv == specs_view(desired_specs@),
                self@ == (BpfRuntimeView { owned: self@.owned, ..old(self)@ }),
                forall|m: int| 0 <= m < j ==> #[trigger] self@.owned.contains(dv[m]),
                forall|m: int|
                    0 <= m < old(self)@.owned.len() ==> #[trigger] self@.owned.contains(
                        old(self)@.owned[m],
                    ),
            decreases desired_specs.len() - j,
        {
            let spec = &desired_specs[j];
            let owned = match owned_index(&self.links, spec) {
                Some(x) => {
                    assert(self@.owned[x as int] == spec@);
                    true
                },
                None => false,
            };
            let state = match adapter.inspect_hook(spec) {
                Ok(s) => s,
                Err(error) => {
                    return Err(self.abort_prepared_specs(adapter, added_specs, error));
                },
            };
            if owned {
                match state {
                    HookState::Owned => {
                        j += 1;
                        continue;
                    },
                    HookState::Absent => {
                        let error = AdapterError::from_message(
                            AdapterErrorKind::AttachFailed,
                            hook_message_text("owned filter is absent before reconfigure", spec),
                        );
                        return Err(self.abort_prepared_specs(adapter, added_specs, error));
                    },
                    HookState::Foreign => {
                        let error = AdapterError::from_message(
                            AdapterErrorKind::OwnershipConflict,
                            hook_message_text("foreign filter replaced owned slot", spec),
                        );
                        return Err(self.abort_prepared_specs(adapter, added_specs, error));
                    },
                }
            }
            if state != HookState::Absent {
                let error = AdapterError::from_message(
                    AdapterErrorKind::OwnershipConflict,
                    hook_message_text("cannot transactionally adopt occupied filter", spec),
                );
                return Err(self.abort_prepared_specs(adapter, added_specs, error));
            }
            match adapter.attach_netlink(spec) {
                Ok(link) => {
                    let ghost before = self@.owned;
                    let o = OwnedLink { spec: spec.copy(), link };
                    proof {
                        lemma_link_specs_push(self.links@, o);
                    }
                    self.links.push(o);
                    added_specs.push(spec.copy());
                    proof {
                        assert(self@.owned[self@.owned.len() - 1] == dv[j as int]);
                        assert forall|m: int| 0 <= m < j + 1 implies #[trigger] self@.owned.contains(dv[m]) by {
                            if m < j {
                                assert(before.contains(dv[m]));
                                let w = choose|w: int| 0 <= w < before.len() && before[w] == dv[m];
                                assert(self@.owned[w] == dv[m]);
                            }
                        }
                        assert forall|m: int| 0 <= m < old(self)@.owned.len() implies #[trigger] self@.owned.contains(old(self)@.owned[m]) by {
                            assert(before.contains(old(self)@.owned[m]));
                            let w = choose|w: int| 0 <= w < before.len() && before[w] == old(self)@.owned[m];
                            assert(self@.owned[w] == old(self)@.owned[m]);
                        }
                    }
                },
                Err(error) => {
                    return Err(self.abort_prepared_specs(adapter, added_specs, error));
                },
            }
            j += 1;
        }
        Ok(BpfReconfigureTxn { desired_specs, desired_mode, added_specs, topology_changed })
    }

    /// Detaches every owned hook so another mode can take the slots,
    /// remembering which interfaces and mode to come back to. The hooks must
    /// all be in place and still owned; a detach that fails puts the rest
    /// back and marks the runtime for reconciliation.
    pub fn suspend_for_replacement<A: AyaAdapter<Link = L>>(&mut self, adapter: &mut A) -> (r:
        Result<BpfSuspendedTopology, AdapterError>)
        ensures
            !spec_is_attached(old(self)@) ==> (r matches Err(e) && e.kind_view()
                == AdapterErrorKind::DetachFailed && e.message_view()
                == "BPF topology is not healthy enough to suspend"@ && final(self)@ == old(self)@),
            r matches Ok(t) ==> spec_is_attached(old(self)@) && old(self)@.mode == Some(t.mode_view())
                && t.retained_view() == hook_interfaces(old(self)@.expected) && final(self)@ == (
            BpfRuntimeView {
                owned: Seq::empty(),
                expected: Seq::empty(),
                mode: None,
                last_error: None,
                ..old(self)@
            }),
            r is Err ==> final(self)@.object_loaded == old(self)@.object_loaded,
    {
        if !self.is_attached() {
            return Err(
                AdapterError::new(
                    AdapterErrorKind::DetachFailed,
                    "BPF topology is not healthy enough to suspend",
                ),
            );
        }
        let mode = match self.current_mode {
            Some(m) => m,
            None => {
                return Err(
                    AdapterError::new(
                        AdapterErrorKind::DetachFailed,
                        "BPF topology is not healthy enough to suspend",
                    ),
                );
            },
        };
        let desired_specs = copy_specs(&self.expected_specs);
        let mut retained_interfaces: Vec<String> = Vec::new();
        let mut i: usize = 0;
        while i < desired_specs.len()
            invariant
                i <= desired_specs.len(),
                spec_is_attached(old(self)@),
                self@ == old(self)@,
                specs_view(desired_specs@) == old(self)@.expected,
                crate::control::texts(retained_interfaces@) == hook_interfaces(
                    old(self)@.expected.take(i as int),
                ),
            decreases desired_specs.len() - i,
        {
            let ghost e = old(self)@.expected;
            proof {
                assert(e.take(i + 1).drop_last() =~= e.take(i as int));
                assert(e.take(i + 1).last() == desired_specs@[i as int]@);
            }
            let name = &desired_specs[i].interface;
            let n = retained_interfaces.len();
            let repeat = n > 0 && str_eq(retained_interfaces[n - 1].as_str(), name.as_str());
            if !repeat {
                let c = name.clone();
                proof {
                    assert(crate::control::texts(retained_interfaces@.push(c))
                        =~= crate::control::texts(retained_interfaces@).push(name@));
                }
                retained_interfaces.push(c);
            }
            i += 1;
        }
        proof {
            assert(old(self)@.expected.take(desired_specs.len() as int) =~= old(self)@.expected);
        }
        let mut j: usize = 0;
        while j < self.links.len()
            invariant
                j <= self.links.len(),
                spec_is_attached(old(self)@),
                self@ == old(self)@,
                self@.mode == Some(mode),
                specs_view(desired_specs@) == old(self)@.expected,
            decreases self.links.len() - j,
        {
            match adapter.inspect_hook(&self.links[j].spec) {
                Ok(HookState::Owned) => {},
                Ok(_) => {
                    let error = AdapterError::from_message(
                        AdapterErrorKind::OwnershipConflict,
                        hook_message_text("owned filter changed before suspend", &self.links[j].spec),
                    );
                    self.require_reconciliation();
                    self.last_runtime_error = Some(error.describe());
                    return Err(error);
                },
                Err(error) => {
                    self.require_reconciliation();
                    self.last_runtime_error = Some(error.describe());
                    return Err(error);
                },
            }
            j += 1;
        }
        let mut owned: Vec<OwnedLink<L>> = Vec::new();
        std::mem::swap(&mut owned, &mut self.links);
        proof {
            assert(self@.owned =~= Seq::<LinkSpecView>::empty());
        }
        while owned.len() > 0
            invariant
                spec_is_attached(old(self)@),
                self@ == (BpfRuntimeView { owned: Seq::empty(), ..old(self)@ }),
                self.links@.len() == 0,
                specs_view(desired_specs@) == old(self)@.expected,
            decreases owned.len(),
        {
            let OwnedLink { spec, link } = owned.remove(0);
            match adapter.detach_link(&spec, link) {
                Ok(()) => {},
                Err(error) => {
                    self.note_unresolved(spec);
                    self.links.append(&mut owned);
                    self.reconcile_required = true;
                    self.recovery_specs = Some(desired_specs);
                    self.recovery_mode = Some(mode);
                    self.last_runtime_error = Some(error.describe());
                    return Err(error);
                },
            }
        }
        self.expected_specs.clear();
        self.current_mode = None;
        self.last_runtime_error = None;
        proof {
            assert(self@.expected =~= Seq::<LinkSpecView>::empty());
        }
        Ok(BpfSuspendedTopology { retained_interfaces, mode })
    }

    /// Attaches a suspended topology again, as it was.
    pub fn resume_suspended<A: AyaAdapter<Link = L>>(
        &mut self,
        adapter: &mut A,
        suspended: BpfSuspendedTopology,
    ) -> (r: Result<(), AdapterError>)
        ensures
            !is_suspended(old(self)@) ==> (r matches Err(e) && e.kind_view() == AdapterErrorKind::AttachFailed && e.message_view()
                == "BPF runtime is not in a suspended state"@ && final(self)@ == old(self)@),
            is_suspended(old(self)@) && suspended.retained_view().len() == 0 ==> r is Ok,
            r is Ok ==> final(self)@.expected == interface_pairs(
                unique_names(suspended.retained_view()),
                suspended.mode_view(),
            ) && final(self)@.mode == Some(suspended.mode_view()) && all_expected_owned(
                final(self)@,
            ),
    {
        let mut interfaces: Vec<String> = Vec::new();
        let mut i: usize = 0;
        while i < suspended.retained_interfaces.len()
            invariant
                i <= suspended.retained_interfaces.len(),
                crate::control::texts(interfaces@) == crate::control::texts(
                    suspended.retained_interfaces@,
                ).take(i as int),
            decreases suspended.retained_interfaces.len() - i,
        {
            let c = suspended.retained_interfaces[i].clone();
            proof {
                assert(c@ == suspended.retained_interfaces@[i as int]@);
                assert(crate::control::texts(interfaces@.push(c)) =~= crate::control::texts(
                    interfaces@,
                ).push(c@));
                assert(crate::control::texts(interfaces@.push(c)) =~= crate::control::texts(
                    suspended.retained_interfaces@,
                ).take(i + 1));
            }
            interfaces.push(c);
            i += 1;
        }
        proof {
            assert(crate::control::texts(suspended.retained_interfaces@).take(
                suspended.retained_interfaces.len() as int,
            ) =~= crate::control::texts(suspended.retained_interfaces@));
        }
        let mode = suspended.mode;
        self.attach_suspended(adapter, &suspended, &interfaces, mode)
    }

    /// Attaches the hooks of `interfaces` in `mode` into a suspended
    /// runtime; every slot must be free. Interfaces the suspended topology
    /// did not hold get their classifier queue first.
    pub fn attach_suspended<A: AyaAdapter<Link = L>>(
        &mut self,
        adapter: &mut A,
        suspended: &BpfSuspendedTopology,
        interfaces: &Vec<String>,
        mode: AttachMode,
    ) -> (r: Result<(), AdapterError>)
        ensures
            !is_suspended(old(self)@) ==> (r matches Err(e) && e.kind_view() == AdapterErrorKind::AttachFailed && e.message_view()
                == "BPF runtime is not in a suspended state"@ && final(self)@ == old(self)@),
            is_suspended(old(self)@) && interfaces.len() == 0 ==> r is Ok,
            r is Ok ==> final(self)@ == (BpfRuntimeView {
                owned: final(self)@.owned,
                expected: interface_pairs(unique_names(crate::control::texts(interfaces@)), mode),
                mode: Some(mode),
                rate_reset_required: true,
                last_error: None,
                ..old(self)@
            }) && all_expected_owned(final(self)@),
            r is Err ==> final(self)@.expected == old(self)@.expected && final(self)@.mode == old(
                self,
            )@.mode,
    {
        if !self.object_loaded || self.links.len() > 0 || self.expected_specs.len() > 0
            || self.reconcile_required || self.unresolved_specs.len() > 0 {
            proof {
                assert(self@.owned.len() == self.links@.len());
                assert(self@.expected.len() == self.expected_specs@.len());
                assert(self@.unresolved.len() == self.unresolved_specs@.len());
            }
            return Err(
                AdapterError::new(
                    AdapterErrorKind::AttachFailed,
                    "BPF runtime is not in a suspended state",
                ),
            );
        }
        proof {
            assert(self@.owned.len() == self.links@.len());
            assert(self@.expected.len() == self.expected_specs@.len());
        }
        let ghost names = crate::control::texts(interfaces@);
        let mut desired_interfaces: Vec<String> = Vec::new();
        let mut i: usize = 0;
        while i < interfaces.len()
            invariant
                i <= interfaces.len(),
                is_suspended(old(self)@),
                self@ == old(self)@,
                names == crate::control::texts(interfaces@),
                crate::control::texts(desired_interfaces@) == unique_names(names.take(i as int)),
                interfaces.len() == 0 ==> desired_interfaces.len() == 0,
            decreases interfaces.len() - i,
        {
            proof {
                assert(names.take(i + 1).drop_last() =~= names.take(i as int));
                assert(names.take(i + 1).last() == interfaces@[i as int]@);
            }
            if !crate::control::contains_text(&desired_interfaces, &interfaces[i]) {
                let c = interfaces[i].clone();
                proof {
                    assert(crate::control::texts(desired_interfaces@.push(c)) =~= crate::control::texts(
                        desired_interfaces@,
                    ).push(interfaces@[i as int]@));
                }
                desired_interfaces.push(c);
            }
            i += 1;
        }
        proof {
            assert(names.take(interfaces.len() as int) =~= names);
        }
        let attached: Vec<LinkSpec> = Vec::new();
        let mut k: usize = 0;
        while k < desired_interfaces.len()
            invariant
                k <= desired_interfaces.len(),
                is_suspended(old(self)@),
                self@ == old(self)@,
                attached@.len() == 0,
                interfaces.len() == 0 ==> desired_interfaces.len() == 0,
            decreases desired_interfaces.len() - k,
        {
            if !crate::control::contains_text(&suspended.retained_interfaces, &desired_interfaces[k]) {
                match adapter.ensure_clsact(desired_interfaces[k].as_str()) {
                    Ok(()) => {},
                    Err(error) => {
                        return Err(self.abort_prepared_specs(adapter, attached, error));
                    },
                }
            }
            k += 1;
        }
        let ghost dn = crate::control::texts(desired_interfaces@);
        let mut desired_specs: Vec<LinkSpec> = Vec::new();
        let mut m: usize = 0;
        while m < desired_interfaces.len()
            invariant
                m <= desired_interfaces.len(),
                is_suspended(old(self)@),
                self@ == old(self)@,
                dn == crate::control::texts(desired_interfaces@),
                specs_view(desired_specs@) == interface_pairs(dn.take(m as int), mode),
                interfaces.len() == 0 ==> desired_interfaces.len() == 0,
            decreases desired_interfaces.len() - m,
        {
            let pair = LinkSpec::pair(desired_interfaces[m].as_str(), mode);
            let first = pair[0].copy();
            let second = pair[1].copy();
            proof {
                assert(dn.take(m + 1).drop_last() =~= dn.take(m as int));
                assert(dn.take(m + 1).last() == desired_interfaces@[m as int]@);
                assert(specs_view(desired_specs@.push(first).push(second)) =~= specs_view(
                    desired_specs@,
                ) + seq![first@, second@]);
            }
            desired_specs.push(first);
            desired_specs.push(second);
            m += 1;
        }
        proof {
            assert(dn.take(desired_interfaces.len() as int) =~= dn);
        }
        let ghost dv = specs_view(desired_specs@);
        proof {
            if interfaces.len() == 0 {
                assert(dn.len() == 0);
                assert(dv.len() == desired_specs@.len());
            }
        }
        let mut attached = attached;
        let mut j: usize = 0;
        while j < desired_specs.len()
            invariant
                j <= desired_specs.len(),
                is_suspended(old(self)@),
                dv == specs_view(desired_specs@),
                self@ == (BpfRuntimeView { owned: self@.owned, ..old(self)@ }),
                forall|q: int| 0 <= q < j ==> #[trigger] self@.owned.contains(dv[q]),
                interfaces.len() == 0 ==> desired_specs.len() == 0,
            decreases desired_specs.len() - j,
        {
            let spec = &desired_specs[j];
            let state = match adapter.inspect_hook(spec) {
                Ok(s) => s,
                Err(error) => {
                    return Err(self.abort_prepared_specs(adapter, attached, error));
                },
            };
            if state != HookState::Absent {
                let error = AdapterError::from_message(
                    AdapterErrorKind::OwnershipConflict,
                    hook_message_text("cannot attach suspended topology over occupied filter", spec),
                );
                return Err(self.abort_prepared_specs(adapter, attached, error));
            }
            match adapter.attach_netlink(spec) {
                Ok(link) => {
                    let ghost before = self@.owned;
                    let o = OwnedLink { spec: spec.copy(), link };
                    proof {
                        lemma_link_specs_push(self.links@, o);
                    }
                    self.links.push(o);
                    attached.push(spec.copy());
                    proof {
                        assert(self@.owned[self@.owned.len() - 1] == dv[j as int]);
                        assert forall|q: int| 0 <= q < j + 1 implies #[trigger] self@.owned.contains(dv[q]) by {
                            if q < j {
                                assert(before.contains(dv[q]));
                                let w = choose|w: int| 0 <= w < before.len() && before[w] == dv[q];
                                assert(self@.owned[w] == dv[q]);
                            }
                        }
                    }
                },
                Err(error) => {
                    return Err(self.abort_prepared_specs(adapter, attached, error));
                },
            }
            j += 1;
        }
        self.expected_specs = desired_specs;
        self.current_mode = Some(mode);
        self.rate_reset_required = true;
        self.last_runtime_error = None;
        Ok(())
    }

    /// Moves every interface's hooks to `new_mode`: the new hooks are
    /// attached first, then the old ones that the new mode does not use are
    /// detached. A failed detach keeps both expectations and marks the
    /// runtime for reconciliation towards the old one.
    pub fn switch_mode<A: AyaAdapter<Link = L>>(
        &mut self,
        adapter: &mut A,
        interfaces: &Vec<String>,
        new_mode: AttachMode,
    ) -> (r: Result<(), AdapterError>)
        ensures
            switch_unneeded(old(self)@, interface_pairs(crate::control::texts(interfaces@), new_mode), new_mode)
                ==> r is Ok && final(self)@ == old(self)@,
            r is Ok && !switch_unneeded(
                old(self)@,
                interface_pairs(crate::control::texts(interfaces@), new_mode),
                new_mode,
            ) ==> final(self)@.expected == interface_pairs(
                crate::control::texts(interfaces@),
                new_mode,
            ) && final(self)@.mode == Some(new_mode) && all_expected_owned(final(self)@)
                && final(self)@.rate_reset_required && final(self)@.last_error is None,
            r matches Err(e) ==> final(self)@.object_loaded == old(self)@.object_loaded,
    {
        let desired = pairs_of(interfaces, new_mode);
        let ghost dv = specs_view(desired@);
        let same_mode = match self.current_mode {
            Some(m) => m == new_mode,
            None => false,
        };
        if same_mode && self.expected_specs.len() == desired.len() {
            let mut all_in = true;
            let mut q: usize = 0;
            while q < self.expected_specs.len()
                invariant
                    q <= self.expected_specs.len(),
                    dv == specs_view(desired@),
                    all_in == (forall|j: int|
                        0 <= j < q ==> #[trigger] dv.contains(self@.expected[j])),
                decreases self.expected_specs.len() - q,
            {
                assert(self@.expected[q as int] == self.expected_specs@[q as int]@);
                if !holds_spec(&desired, &self.expected_specs[q]) {
                    all_in = false;
                }
                proof {
                    if all_in {
                        assert forall|j: int| 0 <= j < q + 1 implies #[trigger] dv.contains(
                            self@.expected[j],
                        ) by {}
                    } else {
                        assert(!(forall|j: int|
                            0 <= j < q + 1 ==> #[trigger] dv.contains(self@.expected[j])) ) by {
                            if !dv.contains(self@.expected[q as int]) {
                            } else {
                                assert(!(forall|j: int| 0 <= j < q ==> #[trigger] dv.contains(self@.expected[j])));
                                let w = choose|j: int| !(0 <= j < q ==> #[trigger] dv.contains(self@.expected[j]));
                                assert(!dv.contains(self@.expected[w]));
                            }
                        }
                    }
                }
                q += 1;
            }
            if all_in {
                return Ok(());
            }
        }
        let old_count = self.links.len();
        let old_specs = copy_specs(&self.expected_specs);
        let old_mode = self.current_mode;
        proof {
            assert(self@.owned.len() == self.links@.len());
        }
        match self.attach_interfaces(adapter, interfaces, new_mode) {
            Ok(()) => {},
            Err(error) => {
                self.current_mode = old_mode;
                return Err(error);
            },
        }
        proof {
            assert forall|k: int| 0 <= k < dv.len() implies #[trigger] self@.owned.contains(dv[k]) by {
                lemma_interface_pairs_member(crate::control::texts(interfaces@), new_mode, dv[k]);
                let i = choose|i: int|
                    0 <= i < crate::control::texts(interfaces@).len() && (dv[k] == spec_pair(
                        crate::control::texts(interfaces@)[i],
                        new_mode,
                    )[0] || dv[k] == spec_pair(crate::control::texts(interfaces@)[i], new_mode)[1]);
                assert(crate::control::texts(interfaces@)[i] == interfaces@[i]@);
                assert(interface_owned(self@, interfaces@[i]@, new_mode));
            }
        }
        let mut old_links: Vec<OwnedLink<L>> = Vec::new();
        let mut idx = old_count;
        while idx > 0
            invariant
                idx <= old_count,
                idx <= self.links.len(),
                self.links@.len() == self@.owned.len(),
                dv == specs_view(desired@),
                forall|k: int| 0 <= k < dv.len() ==> #[trigger] self@.owned.contains(dv[k]),
                self@.object_loaded == old(self)@.object_loaded,
            decreases idx,
        {
            idx -= 1;
            if !holds_spec(&desired, &self.links[idx].spec) {
                let ghost before = self@.owned;
                proof {
                    lemma_link_specs_remove(self.links@, idx as int);
                    assert(before[idx as int] == self.links@[idx as int].spec@);
                }
                let o = self.links.remove(idx);
                proof {
                    assert forall|k: int| 0 <= k < dv.len() implies #[trigger] self@.owned.contains(dv[k]) by {
                        if before[idx as int] == dv[k] {
                            assert(dv.contains(before[idx as int]));
                        }
                        assert(before.contains(dv[k]));
                        lemma_contains_after_remove(before, idx as int, dv[k]);
                    }
                }
                old_links.push(o);
            }
        }
        let mut first_error: Option<AdapterError> = None;
        while old_links.len() > 0
            invariant
                dv == specs_view(desired@),
                forall|k: int| 0 <= k < dv.len() ==> #[trigger] self@.owned.contains(dv[k]),
                self@.object_loaded == old(self)@.object_loaded,
            decreases old_links.len(),
        {
            let OwnedLink { spec, link } = old_links.remove(0);
            match adapter.detach_link(&spec, link) {
                Ok(()) => {
                    self.forget_expected(&spec);
                },
                Err(error) => {
                    if first_error.is_none() {
                        first_error = Some(error);
                    }
                    self.note_unresolved(spec);
                },
            }
        }
        match first_error {
            Some(error) => {
                self.reconcile_required = true;
                self.recovery_specs = Some(copy_specs(&old_specs));
                self.recovery_mode = old_mode;
                let mut merged = copy_specs(&old_specs);
                let mut rest = copy_specs(&self.expected_specs);
                merged.append(&mut rest);
                self.expected_specs = merged;
                self.current_mode = None;
                self.last_runtime_error = Some(error.describe());
                Err(error)
            },
            None => {
                let ghost kept = self@.owned;
                self.expected_specs = desired;
                self.current_mode = Some(new_mode);
                self.rate_reset_required = true;
                self.last_runtime_error = None;
                proof {
                    assert(self@.owned == kept);
                    assert(self@.expected == dv);
                    assert forall|i: int| 0 <= i < self@.expected.len() implies #[trigger] self@.owned.contains(
                        self@.expected[i],
                    ) by {
                        assert(kept.contains(dv[i]));
                    }
                }
                Ok(())
            },
        }
    }
}

} // verus!

verus! {

/// The order of hooks: by interface name, then direction (ingress first),
/// then program name, priority and handle.
pub open spec fn link_lt(a: LinkSpecView, b: LinkSpecView) -> bool {
    if a.interface != b.interface {
        crate::keyed::name_lt(a.interface, b.interface)
    } else if a.direction != b.direction {
        a.direction == LinkDirection::Ingress
    } else if a.program != b.program {
        crate::keyed::name_lt(a.program, b.program)
    } else if a.priority != b.priority {
        a.priority < b.priority
    } else {
        a.handle < b.handle
    }
}

pub proof fn lemma_link_lt_irreflexive(a: LinkSpecView)
    ensures
        !link_lt(a, a),
{
}

pub proof fn lemma_link_lt_transitive(a: LinkSpecView, b: LinkSpecView, c: LinkSpecView)
    requires
        link_lt(a, b),
        link_lt(b, c),
    ensures
        link_lt(a, c),
{
    if a.interface != b.interface && b.interface != c.interface {
        crate::keyed::lemma_name_lt_transitive(a.interface, b.interface, c.interface);
        if a.interface == c.interface {
            crate::keyed::lemma_name_lt_transitive(a.interface, b.interface, a.interface);
            crate::keyed::lemma_name_lt_irreflexive(a.interface);
        }
    } else if a.interface == b.interface && b.interface == c.interface {
        if a.direction == b.direction && b.direction == c.direction {
            if a.program != b.program && b.program != c.program {
                crate::keyed::lemma_name_lt_transitive(a.program, b.program, c.program);
                if a.program == c.program {
                    crate::keyed::lemma_name_lt_irreflexive(a.program);
                }
            }
        }
    }
}

pub proof fn lemma_link_lt_total(a: LinkSpecView, b: LinkSpecView)
    requires
        a != b,
    ensures
        link_lt(a, b) || link_lt(b, a),
{
    if a.interface != b.interface {
        crate::keyed::lemma_name_lt_total(a.interface, b.interface);
    } else if a.direction != b.direction {
    } else if a.program != b.program {
        crate::keyed::lemma_name_lt_total(a.program, b.program);
    }
}

/// Each hook sorts strictly before every later one.
pub open spec fn links_sorted(s: Seq<LinkSpecView>) -> bool {
    forall|i: int, j: int| 0 <= i < j < s.len() ==> link_lt(#[trigger] s[i], #[trigger] s[j])
}

/// The two sequences hold the same hooks.
pub open spec fn same_hooks(a: Seq<LinkSpecView>, b: Seq<LinkSpecView>) -> bool {
    forall|x: LinkSpecView| #![trigger a.contains(x)] #![trigger b.contains(x)] a.contains(x) <==> b.contains(x)
}

/// Two sorted sequences of the same hooks are the same sequence.
pub proof fn lemma_sorted_same_hooks_equal(a: Seq<LinkSpecView>, b: Seq<LinkSpecView>)
    requires
        links_sorted(a),
        links_sorted(b),
        same_hooks(a, b),
    ensures
        a == b,
    decreases a.len(),
{
    if a.len() == 0 {
        if b.len() > 0 {
            assert(b.contains(b[0]));
        }
        assert(a =~= b);
    } else if b.len() == 0 {
        assert(a.contains(a[0]));
    } else {
        assert(a.contains(a[0]));
        assert(b.contains(b[0]));
        let ia = choose|i: int| 0 <= i < a.len() && a[i] == b[0];
        let ib = choose|i: int| 0 <= i < b.len() && b[i] == a[0];
        if a[0] != b[0] {
            assert(ia > 0);
            assert(ib > 0);
            assert(link_lt(a[0], a[ia]));
            assert(link_lt(b[0], b[ib]));
            lemma_link_lt_transitive(a[0], b[0], a[0]);
        }
        let ta = a.drop_first();
        let tb = b.drop_first();
        assert forall|x: LinkSpecView| #![trigger ta.contains(x)] #![trigger tb.contains(x)] ta.contains(x) <==> tb.contains(x) by {
            if ta.contains(x) {
                let i = choose|i: int| 0 <= i < ta.len() && ta[i] == x;
                assert(a[i + 1] == x);
                assert(link_lt(a[0], x));
                assert(a.contains(x));
                let j = choose|j: int| 0 <= j < b.len() && b[j] == x;
                if j == 0 {
                    lemma_link_lt_irreflexive(x);
                }
                assert(tb[j - 1] == x);
            }
            if tb.contains(x) {
                let i = choose|i: int| 0 <= i < tb.len() && tb[i] == x;
                assert(b[i + 1] == x);
                assert(link_lt(b[0], x));
                assert(b.contains(x));
                let j = choose|j: int| 0 <= j < a.len() && a[j] == x;
                if j == 0 {
                    lemma_link_lt_irreflexive(x);
                }
                assert(ta[j - 1] == x);
            }
        }
        lemma_sorted_same_hooks_equal(ta, tb);
        assert(a.len() == b.len());
        assert forall|i: int| 0 <= i < a.len() implies a[i] == b[i] by {
            if i > 0 {
                assert(a[i] == ta[i - 1]);
                assert(b[i] == tb[i - 1]);
            }
        }
        assert(a =~= b);
    }
}

/// Whether `a` sorts before `b`.
fn link_less(a: &LinkSpec, b: &LinkSpec) -> (r: bool)
    ensures
        r == link_lt(a@, b@),
{
    if !str_eq(a.interface.as_str(), b.interface.as_str()) {
        crate::keyed::str_less(a.interface.as_str(), b.interface.as_str())
    } else if a.direction != b.direction {
        a.direction == LinkDirection::Ingress
    } else if !str_eq(a.program, b.program) {
        crate::keyed::str_less(a.program, b.program)
    } else if a.priority != b.priority {
        a.priority < b.priority
    } else {
        a.handle < b.handle
    }
}

/// The hooks of every interface in `mode`, interface by interface.
fn pairs_of(interfaces: &Vec<String>, mode: AttachMode) -> (r: Vec<LinkSpec>)
    ensures
        specs_view(r@) == interface_pairs(crate::control::texts(interfaces@), mode),
{
    let mut all: Vec<LinkSpec> = Vec::new();
    let mut i: usize = 0;
    while i < interfaces.len()
        invariant
            i <= interfaces.len(),
            specs_view(all@) == interface_pairs(
                crate::control::texts(interfaces@).take(i as int),
                mode,
            ),
        decreases interfaces.len() - i,
    {
        let pair = LinkSpec::pair(interfaces[i].as_str(), mode);
        let first = pair[0].copy();
        let second = pair[1].copy();
        proof {
            let t = crate::control::texts(interfaces@);
            assert(t.take(i + 1).drop_last() =~= t.take(i as int));
            assert(t.take(i + 1).last() == interfaces@[i as int]@);
            assert(specs_view(all@.push(first).push(second)) =~= specs_view(all@) + seq![
                first@,
                second@,
            ]);
        }
        all.push(first);
        all.push(second);
        i += 1;
    }
    proof {
        assert(crate::control::texts(interfaces@).take(interfaces.len() as int)
            =~= crate::control::texts(interfaces@));
    }
    all
}

/// Every hook of `interface_pairs` belongs to one of the interfaces.
proof fn lemma_interface_pairs_member(names: Seq<Seq<char>>, mode: AttachMode, x: LinkSpecView)
    requires
        interface_pairs(names, mode).contains(x),
    ensures
        exists|i: int|
            0 <= i < names.len() && (x == spec_pair(names[i], mode)[0] || x == spec_pair(
                names[i],
                mode,
            )[1]),
    decreases names.len(),
{
    let prefix = interface_pairs(names.drop_last(), mode);
    let whole = interface_pairs(names, mode);
    let k = choose|k: int| 0 <= k < whole.len() && whole[k] == x;
    if k < prefix.len() {
        assert(prefix[k] == x);
        lemma_interface_pairs_member(names.drop_last(), mode, x);
        let i = choose|i: int|
            0 <= i < names.drop_last().len() && (x == spec_pair(names.drop_last()[i], mode)[0]
                || x == spec_pair(names.drop_last()[i], mode)[1]);
        assert(names[i] == names.drop_last()[i]);
    } else {
        let last = names.len() - 1;
        assert(names[last] == names.last());
        if k == prefix.len() {
            assert(x == spec_pair(names[last], mode)[0]);
        } else {
            assert(x == spec_pair(names[last], mode)[1]);
        }
    }
}

/// Removes every copy of `spec`.
fn remove_spec(specs: &mut Vec<LinkSpec>, spec: &LinkSpec)
    ensures
        forall|x: LinkSpecView|
            #[trigger] specs_view(final(specs)@).contains(x) <==> (specs_view(old(specs)@).contains(
                x,
            ) && x != spec@),
{
    let mut kept: Vec<LinkSpec> = Vec::new();
    let mut i: usize = 0;
    let ghost src = specs_view(specs@);
    while i < specs.len()
        invariant
            i <= specs.len(),
            src == specs_view(specs@),
            forall|x: LinkSpecView|
                #[trigger] specs_view(kept@).contains(x) <==> (src.take(i as int).contains(x) && x
                    != spec@),
        decreases specs.len() - i,
    {
        let ghost before = specs_view(kept@);
        let ghost cur = src.take(i as int);
        let ghost nxt = src.take(i + 1);
        proof {
            assert(nxt =~= cur.push(src[i as int]));
        }
        if !specs[i].same(spec) {
            let c = specs[i].copy();
            proof {
                assert(specs_view(kept@.push(c)) =~= before.push(c@));
            }
            kept.push(c);
            proof {
                assert forall|x: LinkSpecView| #[trigger] specs_view(kept@).contains(x) <==> (src.take(
                    i + 1,
                ).contains(x) && x != spec@) by {
                    if specs_view(kept@).contains(x) {
                        let k = choose|k: int| 0 <= k < specs_view(kept@).len() && specs_view(kept@)[k] == x;
                        if k < before.len() {
                            assert(before[k] == x);
                            assert(before.contains(x));
                            let m = choose|m: int| 0 <= m < i && cur[m] == x;
                            assert(nxt[m] == x);
                        } else {
                            assert(nxt[i as int] == x);
                        }
                    }
                    if nxt.contains(x) && x != spec@ {
                        let m = choose|m: int| 0 <= m < i + 1 && nxt[m] == x;
                        if m < i {
                            assert(cur[m] == x);
                            assert(before.contains(x));
                            let k = choose|k: int| 0 <= k < before.len() && before[k] == x;
                            assert(specs_view(kept@)[k] == x);
                        } else {
                            assert(specs_view(kept@)[before.len() as int] == x);
                        }
                    }
                }
            }
        } else {
            proof {
                assert forall|x: LinkSpecView| #[trigger] specs_view(kept@).contains(x) <==> (src.take(
                    i + 1,
                ).contains(x) && x != spec@) by {
                    if specs_view(kept@).contains(x) {
                        let m = choose|m: int| 0 <= m < i && cur[m] == x;
                        assert(nxt[m] == x);
                    }
                    if nxt.contains(x) && x != spec@ {
                        let m = choose|m: int| 0 <= m < i + 1 && nxt[m] == x;
                        assert(m < i);
                        assert(cur[m] == x);
                    }
                }
            }
        }
        i += 1;
    }
    proof {
        assert(src.take(specs.len() as int) =~= src);
    }
    *specs = kept;
}

/// Whether two lists hold the same hooks in the same order.
fn specs_equal(a: &Vec<LinkSpec>, b: &Vec<LinkSpec>) -> (r: bool)
    ensures
        r == (specs_view(a@) == specs_view(b@)),
{
    if a.len() != b.len() {
        assert(specs_view(a@).len() != specs_view(b@).len());
        return false;
    }
    let mut i: usize = 0;
    while i < a.len()
        invariant
            i <= a.len(),
            a.len() == b.len(),
            forall|j: int| 0 <= j < i ==> specs_view(a@)[j] == specs_view(b@)[j],
        decreases a.len() - i,
    {
        if !a[i].same(&b[i]) {
            assert(specs_view(a@)[i as int] != specs_view(b@)[i as int]);
            return false;
        }
        i += 1;
    }
    assert(specs_view(a@) =~= specs_view(b@));
    true
}

/// The hooks of `specs`, sorted and without repeats.
fn sorted_unique(specs: &Vec<LinkSpec>) -> (r: Vec<LinkSpec>)
    ensures
        links_sorted(specs_view(r@)),
        same_hooks(specs_view(r@), specs_view(specs@)),
{
    let mut out: Vec<LinkSpec> = Vec::new();
    let mut i: usize = 0;
    while i < specs.len()
        invariant
            i <= specs.len(),
            links_sorted(specs_view(out@)),
            forall|x: LinkSpecView|
                #![trigger specs_view(out@).contains(x)]
                #![trigger specs_view(specs@).take(i as int).contains(x)]
                specs_view(out@).contains(x) <==> specs_view(specs@).take(i as int).contains(x),
        decreases specs.len() - i,
    {
        let spec = &specs[i];
        let ghost s = specs_view(out@);
        let ghost input_prefix = specs_view(specs@).take(i as int);
        proof {
            assert(specs_view(specs@).take(i + 1) =~= input_prefix.push(spec@));
        }
        let mut p: usize = 0;
        while p < out.len() && link_less(&out[p], spec)
            invariant
                p <= out.len(),
                s == specs_view(out@),
                forall|j: int| 0 <= j < p ==> link_lt(s[j], spec@),
            decreases out.len() - p,
        {
            p += 1;
        }
        if p < out.len() && out[p].same(spec) {
            proof {
                assert forall|x: LinkSpecView|
                    #![trigger s.contains(x)]
                    #![trigger specs_view(specs@).take(i + 1).contains(x)]
                    s.contains(x) <==> specs_view(specs@).take(i + 1).contains(x) by {
                    if x == spec@ {
                        assert(s[p as int] == x);
                        assert(input_prefix.push(spec@)[i as int] == x);
                    } else {
                        if input_prefix.push(spec@).contains(x) {
                            let k = choose|k: int| 0 <= k < i + 1 && input_prefix.push(spec@)[k] == x;
                            assert(input_prefix[k] == x);
                        }
                        if input_prefix.contains(x) {
                            let k = choose|k: int| 0 <= k < i && input_prefix[k] == x;
                            assert(input_prefix.push(spec@)[k] == x);
                        }
                    }
                }
            }
        } else {
            let c = spec.copy();
            proof {
                if p < out.len() {
                    assert(s[p as int] != spec@);
                    assert(!link_lt(s[p as int], spec@));
                    lemma_link_lt_total(s[p as int], spec@);
                }
            }
            out.insert(p, c);
            proof {
                let t = specs_view(out@);
                assert(t =~= s.insert(p as int, spec@));
                assert forall|a: int, b: int| 0 <= a < b < t.len() implies link_lt(#[trigger] t[a], #[trigger] t[b]) by {
                    if a < p && b == p {
                    } else if a == p && b > p {
                        assert(t[b] == s[b - 1]);
                        if b - 1 > p {
                            assert(link_lt(s[p as int], s[b - 1]));
                            lemma_link_lt_transitive(spec@, s[p as int], s[b - 1]);
                        }
                    } else if a < p && b > p {
                        assert(t[b] == s[b - 1]);
                        assert(t[a] == s[a]);
                    } else if b < p {
                        assert(t[a] == s[a]);
                        assert(t[b] == s[b]);
                    } else {
                        assert(t[a] == s[a - 1]);
                        assert(t[b] == s[b - 1]);
                    }
                }
                assert forall|x: LinkSpecView|
                    #![trigger t.contains(x)]
                    #![trigger specs_view(specs@).take(i + 1).contains(x)]
                    t.contains(x) <==> specs_view(specs@).take(i + 1).contains(x) by {
                    if x == spec@ {
                        assert(t[p as int] == x);
                        assert(input_prefix.push(spec@)[i as int] == x);
                    } else {
                        if t.contains(x) {
                            let k = choose|k: int| 0 <= k < t.len() && t[k] == x;
                            if k < p {
                                assert(s[k] == x);
                            } else {
                                assert(s[k - 1] == x);
                            }
                            assert(s.contains(x));
                            let m = choose|m: int| 0 <= m < i && input_prefix[m] == x;
                            assert(input_prefix.push(spec@)[m] == x);
                        }
                        if input_prefix.push(spec@).contains(x) {
                            let k = choose|k: int| 0 <= k < i + 1 && input_prefix.push(spec@)[k] == x;
                            assert(input_prefix[k] == x);
                            assert(input_prefix.contains(x));
                            assert(s.contains(x));
                            let m = choose|m: int| 0 <= m < s.len() && s[m] == x;
                            if m < p {
                                assert(t[m] == x);
                            } else {
                                assert(t[m + 1] == x);
                            }
                        }
                    }
                }
            }
        }
        i += 1;
    }
    proof {
        assert(specs_view(specs@).take(specs.len() as int) =~= specs_view(specs@));
    }
    out
}

} // verus!

verus! {

/// Committing keeps every hook that a transaction wants: where the owned
/// hooks cover the wanted ones, what a commit keeps covers them too, and it
/// hands back none of them.
pub proof fn lemma_commit_keeps_wanted(owned: Seq<LinkSpecView>, wanted: Seq<LinkSpecView>)
    requires
        forall|i: int| 0 <= i < wanted.len() ==> #[trigger] owned.contains(wanted[i]),
    ensures
        forall|i: int| 0 <= i < wanted.len() ==> #[trigger] kept_in(owned, wanted).contains(wanted[i]),
        forall|i: int|
            0 <= i < dropped_from(owned, wanted).len() ==> !wanted.contains(
                #[trigger] dropped_from(owned, wanted)[i],
            ),
{
    lemma_kept_in_members(owned, wanted);
    lemma_dropped_from_members(owned, wanted);
    assert forall|i: int| 0 <= i < wanted.len() implies #[trigger] kept_in(owned, wanted).contains(
        wanted[i],
    ) by {
        assert(owned.contains(wanted[i]));
        assert(wanted.contains(wanted[i]));
    }
}

proof fn lemma_kept_in_members(s: Seq<LinkSpecView>, d: Seq<LinkSpecView>)
    ensures
        forall|x: LinkSpecView|
            #[trigger] kept_in(s, d).contains(x) <==> (s.contains(x) && d.contains(x)),
    decreases s.len(),
{
    if s.len() > 0 {
        lemma_kept_in_members(s.drop_last(), d);
        assert forall|x: LinkSpecView| #[trigger] kept_in(s, d).contains(x) <==> (s.contains(x)
            && d.contains(x)) by {
            let k = kept_in(s.drop_last(), d);
            if s.contains(x) && d.contains(x) {
                let i = choose|i: int| 0 <= i < s.len() && s[i] == x;
                if i < s.len() - 1 {
                    assert(s.drop_last()[i] == x);
                    assert(k.contains(x));
                    let j = choose|j: int| 0 <= j < k.len() && k[j] == x;
                    if d.contains(s.last()) {
                        assert(k.push(s.last())[j] == x);
                    }
                } else {
                    assert(k.push(s.last())[k.len() as int] == x);
                }
            }
            if kept_in(s, d).contains(x) {
                let j = choose|j: int| 0 <= j < kept_in(s, d).len() && kept_in(s, d)[j] == x;
                if d.contains(s.last()) && j == k.len() {
                    assert(s[s.len() - 1] == x);
                } else {
                    if d.contains(s.last()) {
                        assert(k[j] == x);
                    }
                    assert(k.contains(x));
                    let i = choose|i: int| 0 <= i < s.drop_last().len() && s.drop_last()[i] == x;
                    assert(s[i] == x);
                }
            }
        }
    }
}

proof fn lemma_dropped_from_members(s: Seq<LinkSpecView>, d: Seq<LinkSpecView>)
    ensures
        forall|i: int|
            0 <= i < dropped_from(s, d).len() ==> !d.contains(#[trigger] dropped_from(s, d)[i]),
    decreases s.len(),
{
    if s.len() > 0 {
        lemma_dropped_from_members(s.drop_last(), d);
        let p = dropped_from(s.drop_last(), d);
        assert forall|i: int| 0 <= i < dropped_from(s, d).len() implies !d.contains(
            #[trigger] dropped_from(s, d)[i],
        ) by {
            if !d.contains(s.last()) && i == p.len() {
            } else {
                assert(dropped_from(s, d)[i] == p[i]);
            }
        }
    }
}

} // verus!
