use vstd::prelude::*;

use crate::page::{
    is_power_of_two, lemma_low_bits_are_remainder, lemma_round_up_clears_low_bits, lemma_round_up_is_least_page_multiple,
    page_multiple_at_least, round_up_to_page_size,
};

verus! {

/// What the operating system is asked to map.
#[derive(Clone, Copy, Debug, PartialEq, Eq, Structural)]
pub enum Protection {
    /// Executable memory taken from the code allocator's region.
    JitCode,
    /// Private anonymous memory that is readable, writable and executable.
    ReadWriteExecute,
    /// Private anonymous memory without any access: a reservation.
    NoAccess,
}

/// Why a reservation stops the process instead of returning.
#[derive(Clone, Copy, Debug, PartialEq, Eq, Structural)]
pub enum Fault {
    /// A size or an offset breaks what the caller promised of it.
    BadArgument,
    /// A size or an address leaves the range of `usize`.
    ArithmeticOverflow,
    /// A fresh mapping lies on the code allocator's region.
    OverlapsCodeRegion,
}

/// A mapping of `len` bytes at address `ptr`, as the system handed it out.
#[derive(Debug)]
pub struct Mmap {
    ptr: usize,
    len: usize,
}

/// The address and the length of a mapping.
pub ghost struct MmapView {
    pub addr: usize,
    pub len: usize,
}

impl View for Mmap {
    type V = MmapView;

    closed spec fn view(&self) -> MmapView {
        MmapView { addr: self.ptr, len: self.len }
    }
}

/// `Vec::as_mut_ptr`, taken as an address. The documentation of `Vec`
/// guarantees that its pointer is never null; the contract claims that, and
/// that the vector is left as it was, and nothing of the address's value.
#[verifier::external_body]
fn buffer_address(v: &mut Vec<u8>) -> (addr: usize)
    ensures
        addr != 0,
        final(v)@ == old(v)@,
{
    v.as_mut_ptr() as usize
}

impl Mmap {
    /// An empty mapping: no bytes, at a non-null dangling address.
    pub fn new() -> (m: Mmap)
        ensures
            m@.len == 0,
            m@.addr != 0,
    {
        let mut empty: Vec<u8> = Vec::new();
        Mmap { ptr: buffer_address(&mut empty), len: 0 }
    }

    /// The address of the mapping.
    pub fn as_ptr(&self) -> (addr: usize)
        ensures
            addr == self@.addr,
    {
        self.ptr
    }

    /// The address of the mapping, for writing through it.
    pub fn as_mut_ptr(&mut self) -> (addr: usize)
        ensures
            addr == old(self)@.addr,
            final(self)@ == old(self)@,
    {
        self.ptr
    }

    /// The length of the mapping in bytes.
    pub fn len(&self) -> (n: usize)
        ensures
            n == self@.len,
    {
        self.len
    }
}

/// The answer to a request to make part of a mapping accessible.
#[derive(Clone, Copy, Debug, PartialEq, Eq, Structural)]
pub enum AccessStep {
    /// Give `len` bytes at `addr` read and write access.
    Protect { addr: usize, len: usize },
    /// Stop: the request breaks what the caller promised.
    Abort(Fault),
}

/// The decision for `make_accessible(start, len)` on `m` with page size `page_size`.
pub open spec fn access_plan(m: MmapView, start: usize, len: usize, page_size: usize) -> AccessStep {
    if page_size == 0 {
        AccessStep::Abort(Fault::ArithmeticOverflow)
    } else if start & ((page_size - 1) as usize) != 0 || len & ((page_size - 1) as usize) != 0 {
        AccessStep::Abort(Fault::BadArgument)
    } else if !(len <= m.len) || !(start <= m.len - len) {
        AccessStep::Abort(Fault::BadArgument)
    } else {
        AccessStep::Protect {
            addr: vstd::wrapping::usize_specs::wrapping_add(m.addr, start),
            len,
        }
    }
}

/// The operating system's page size, as `region::page::size` reports it.
/// `region` reads it once per process and caches it; its documentation
/// promises nothing of the value, and neither does this contract.
#[verifier::external_body]
fn os_page_size() -> usize {
    region::page::size()
}

impl Mmap {
    /// Decide how to make `len` bytes at offset `start` accessible, for a
    /// given page size: both must be page multiples and lie within the
    /// mapping.
    pub fn make_accessible_for_page_size(&self, start: usize, len: usize, page_size: usize) -> (r: AccessStep)
        ensures
            r == access_plan(self@, start, len, page_size),
    {
        if page_size == 0 {
            return AccessStep::Abort(Fault::ArithmeticOverflow);
        }
        let mask = page_size - 1;
        if start & mask != 0 || len & mask != 0 {
            return AccessStep::Abort(Fault::BadArgument);
        }
        if !(len <= self.len) || !(start <= self.len - len) {
            return AccessStep::Abort(Fault::BadArgument);
        }
        AccessStep::Protect { addr: self.ptr.wrapping_add(start), len }
    }

    /// Decide how to make `len` bytes at offset `start` accessible, with the
    /// operating system's page size.
    pub fn make_accessible(&mut self, start: usize, len: usize) -> (r: AccessStep)
        ensures
            final(self)@ == old(self)@,
            exists|page_size: usize| r == #[trigger] access_plan(old(self)@, start, len, page_size),
    {
        let page_size = os_page_size();
        self.make_accessible_for_page_size(start, len, page_size)
    }
}

/// A mapping that the operating system must create before a reservation
/// can go on: `mapping_size` bytes of `protection`, of which the first
/// `accessible_size` bytes are to end up readable and writable.
#[derive(Clone, Copy, Debug, PartialEq, Eq, Structural)]
pub struct MapRequest {
    pub protection: Protection,
    pub mapping_size: usize,
    pub accessible_size: usize,
    pub page_size: usize,
}

/// The protection a reservation asks for.
pub open spec fn protection_for(accessible_size: usize, mapping_size: usize, iscode: bool) -> Protection {
    if accessible_size != mapping_size {
        Protection::NoAccess
    } else if iscode {
        Protection::JitCode
    } else {
        Protection::ReadWriteExecute
    }
}

impl MapRequest {
    /// The requests that a reservation hands out.
    pub open spec fn wf(&self) -> bool {
        &&& self.page_size >= 1
        &&& self.mapping_size != 0
        &&& self.accessible_size <= self.mapping_size
        &&& self.mapping_size & ((self.page_size - 1) as usize) == 0
        &&& self.accessible_size & ((self.page_size - 1) as usize) == 0
        &&& (self.protection == Protection::NoAccess <==> self.accessible_size != self.mapping_size)
    }
}

/// A fresh mapping whose first `len` bytes at `addr` must be made readable
/// and writable before it is handed out.
#[derive(Debug)]
pub struct CommitRequest {
    pub mmap: Mmap,
    pub addr: usize,
    pub len: usize,
}

/// One step of reserving a mapping.
#[derive(Debug)]
pub enum ReserveStep {
    /// Create the mapping, then call `MapRequest::mapped` with its address.
    Mapping(MapRequest),
    /// Make a range accessible, then call `CommitRequest::committed`.
    Commit(CommitRequest),
    /// The reservation is over.
    Done(Result<Mmap, String>),
    /// Stop the process.
    Abort(Fault),
}

/// How a reservation starts.
pub ghost enum ReservePlan {
    Abort(Fault),
    Empty,
    Mapping(MapRequest),
}

/// The first decision of `accessible_reserved(accessible_size, mapping_size, iscode)`
/// when the page size is `page_size`.
pub open spec fn reserve_plan(accessible_size: usize, mapping_size: usize, iscode: bool, page_size: usize) -> ReservePlan {
    if !(accessible_size <= mapping_size) {
        ReservePlan::Abort(Fault::BadArgument)
    } else if page_size == 0 {
        ReservePlan::Abort(Fault::ArithmeticOverflow)
    } else if mapping_size & ((page_size - 1) as usize) != 0 || accessible_size & ((page_size - 1) as usize) != 0 {
        ReservePlan::Abort(Fault::BadArgument)
    } else if mapping_size == 0 {
        ReservePlan::Empty
    } else {
        ReservePlan::Mapping(MapRequest {
            protection: protection_for(accessible_size, mapping_size, iscode),
            mapping_size,
            accessible_size,
            page_size,
        })
    }
}

/// `r` is the step that `plan` describes.
pub open spec fn starts_as(plan: ReservePlan, r: ReserveStep) -> bool {
    match plan {
        ReservePlan::Abort(f) => r == ReserveStep::Abort(f),
        ReservePlan::Empty => r matches ReserveStep::Done(Ok(m)) && m@.len == 0 && m@.addr != 0,
        ReservePlan::Mapping(q) => r == ReserveStep::Mapping(q),
    }
}

/// How a reservation goes on once the mapping exists.
pub ghost enum MappedPlan {
    Abort(Fault),
    Failed,
    Ready(MmapView),
    Commit(MmapView, usize),
}

/// The address that marks a failed mapping.
pub open spec fn map_failed() -> usize {
    usize::MAX
}

/// The decision once `q` was mapped at `addr`, while the code allocator's
/// region spans `code_start..=code_end`.
pub open spec fn mapped_plan(q: MapRequest, addr: usize, code_start: usize, code_end: usize) -> MappedPlan {
    let whole = MmapView { addr, len: q.mapping_size };
    if addr == map_failed() {
        MappedPlan::Failed
    } else if q.protection == Protection::JitCode {
        MappedPlan::Ready(whole)
    } else if addr + q.mapping_size > usize::MAX {
        MappedPlan::Abort(Fault::ArithmeticOverflow)
    } else if !(addr + q.mapping_size < code_start || addr > code_end) {
        MappedPlan::Abort(Fault::OverlapsCodeRegion)
    } else if q.accessible_size == 0 || q.protection == Protection::ReadWriteExecute {
        MappedPlan::Ready(whole)
    } else {
        MappedPlan::Commit(whole, q.accessible_size)
    }
}

/// `r` is the step that `plan` describes.
pub open spec fn continues_as(plan: MappedPlan, r: ReserveStep) -> bool {
    match plan {
        MappedPlan::Abort(f) => r == ReserveStep::Abort(f),
        MappedPlan::Failed => r matches ReserveStep::Done(Err(_)),
        MappedPlan::Ready(v) => r matches ReserveStep::Done(Ok(m)) && m@ == v,
        MappedPlan::Commit(v, len) => r matches ReserveStep::Commit(c) && c.mmap@ == v && c.addr
            == v.addr && c.len == len,
    }
}

/// `errno::errno()` rendered with its `Display` impl: the message of the
/// calling thread's last operating-system error. It depends on what the
/// thread did before; the contract claims nothing of it.
#[verifier::external_body]
fn last_os_error() -> String {
    errno::errno().to_string()
}

impl Mmap {
    /// Start reserving `mapping_size` bytes of which the first
    /// `accessible_size` are accessible, for a given page size. Both sizes
    /// must be page multiples; an empty mapping needs no call to the system.
    pub fn accessible_reserved_for_page_size(
        accessible_size: usize,
        mapping_size: usize,
        iscode: bool,
        page_size: usize,
    ) -> (r: ReserveStep)
        ensures
            starts_as(reserve_plan(accessible_size, mapping_size, iscode, page_size), r),
    {
        if !(accessible_size <= mapping_size) {
            return ReserveStep::Abort(Fault::BadArgument);
        }
        if page_size == 0 {
            return ReserveStep::Abort(Fault::ArithmeticOverflow);
        }
        let mask = page_size - 1;
        if mapping_size & mask != 0 || accessible_size & mask != 0 {
            return ReserveStep::Abort(Fault::BadArgument);
        }
        if mapping_size == 0 {
            return ReserveStep::Done(Ok(Mmap::new()));
        }
        let protection = if accessible_size != mapping_size {
            Protection::NoAccess
        } else if iscode {
            Protection::JitCode
        } else {
            Protection::ReadWriteExecute
        };
        ReserveStep::Mapping(MapRequest { protection, mapping_size, accessible_size, page_size })
    }

    /// Start reserving `mapping_size` bytes of which the first
    /// `accessible_size` are accessible, with the operating system's page size.
    pub fn accessible_reserved(accessible_size: usize, mapping_size: usize, iscode: bool) -> (r: ReserveStep)
        ensures
            exists|page_size: usize|
                starts_as(#[trigger] reserve_plan(accessible_size, mapping_size, iscode, page_size), r),
    {
        let page_size = os_page_size();
        Mmap::accessible_reserved_for_page_size(accessible_size, mapping_size, iscode, page_size)
    }
}

impl MapRequest {
    /// Go on once the mapping exists at `addr` (`usize::MAX` when the
    /// system refused it), the code allocator's region spanning
    /// `code_start..=code_end`.
    pub fn mapped(self, addr: usize, code_start: usize, code_end: usize) -> (r: ReserveStep)
        requires
            self.wf(),
        ensures
            continues_as(mapped_plan(self, addr, code_start, code_end), r),
    {
        if addr == usize::MAX {
            return ReserveStep::Done(Err(last_os_error()));
        }
        if self.protection == Protection::JitCode {
            return ReserveStep::Done(Ok(Mmap { ptr: addr, len: self.mapping_size }));
        }
        if addr > usize::MAX - self.mapping_size {
            return ReserveStep::Abort(Fault::ArithmeticOverflow);
        }
        if !(addr + self.mapping_size < code_start || addr > code_end) {
            return ReserveStep::Abort(Fault::OverlapsCodeRegion);
        }
        let mmap = Mmap { ptr: addr, len: self.mapping_size };
        if self.accessible_size == 0 || self.protection == Protection::ReadWriteExecute {
            return ReserveStep::Done(Ok(mmap));
        }
        proof {
            let m: usize = (self.page_size - 1) as usize;
            assert(0usize & m == 0) by (bit_vector);
        }
        let step = mmap.make_accessible_for_page_size(0, self.accessible_size, self.page_size);
        match step {
            AccessStep::Protect { addr, len } => ReserveStep::Commit(CommitRequest { mmap, addr, len }),
            AccessStep::Abort(f) => ReserveStep::Abort(f),
        }
    }
}

impl CommitRequest {
    /// Finish once the range was made accessible, or failed to be with the
    /// message `result` holds.
    pub fn committed(self, result: Result<(), String>) -> (r: Result<Mmap, String>)
        ensures
            match result {
                Ok(_) => r matches Ok(m) && m@ == self.mmap@,
                Err(e) => r == Err::<Mmap, String>(e),
            },
    {
        match result {
            Ok(_) => Ok(self.mmap),
            Err(e) => Err(e),
        }
    }
}

/// The first decision of `with_at_least(size, iscode)` when the page size is
/// `page_size`: round `size` up to a page multiple and reserve that much, all
/// of it accessible.
pub open spec fn at_least_plan(size: usize, iscode: bool, page_size: usize) -> ReservePlan {
    if page_size == 0 || size + (page_size - 1) > usize::MAX {
        ReservePlan::Abort(Fault::ArithmeticOverflow)
    } else {
        let rounded = page_multiple_at_least(size as int, page_size as int) as usize;
        reserve_plan(rounded, rounded, iscode, page_size)
    }
}

impl Mmap {
    /// Start reserving at least `size` bytes of accessible memory, rounded up
    /// to a multiple of `page_size`.
    pub fn with_at_least_for_page_size(size: usize, iscode: bool, page_size: usize) -> (r: ReserveStep)
        ensures
            starts_as(at_least_plan(size, iscode, page_size), r),
    {
        if page_size == 0 || size > usize::MAX - (page_size - 1) {
            return ReserveStep::Abort(Fault::ArithmeticOverflow);
        }
        let rounded = round_up_to_page_size(size, page_size);
        Mmap::accessible_reserved_for_page_size(rounded, rounded, iscode, page_size)
    }

    /// Start reserving at least `size` bytes of accessible memory, rounded up
    /// to a multiple of the operating system's page size.
    pub fn with_at_least(size: usize, iscode: bool) -> (r: ReserveStep)
        ensures
            exists|page_size: usize| starts_as(#[trigger] at_least_plan(size, iscode, page_size), r),
    {
        let page_size = os_page_size();
        Mmap::with_at_least_for_page_size(size, iscode, page_size)
    }
}

/// A reservation asks the system for exactly the mapping it was given:
/// `mapping_size` bytes, of which `accessible_size` are to be accessible;
/// an empty mapping asks for nothing.
pub proof fn lemma_reserve_asks_for_the_mapping(
    accessible_size: usize,
    mapping_size: usize,
    iscode: bool,
    page_size: usize,
)
    ensures
        reserve_plan(accessible_size, mapping_size, iscode, page_size) matches ReservePlan::Mapping(q)
            ==> q.wf() && q.mapping_size == mapping_size && q.accessible_size == accessible_size
            && q.page_size == page_size
            && q.protection == protection_for(accessible_size, mapping_size, iscode),
        reserve_plan(accessible_size, mapping_size, iscode, page_size) is Empty ==> mapping_size == 0,
        (accessible_size <= mapping_size && page_size >= 1 && mapping_size == 0)
            ==> reserve_plan(accessible_size, mapping_size, iscode, page_size) is Empty,
{
    if mapping_size == 0 && page_size >= 1 {
        let m: usize = (page_size - 1) as usize;
        assert(0usize & m == 0) by (bit_vector);
    }
}

/// The memory that a reservation hands out, or makes accessible, is the
/// mapping the system created: `mapping_size` bytes at the address it
/// reported, never the failure address. A mapping not taken from the code
/// allocator never lies on the code allocator's region, and the part made accessible is the first
/// `accessible_size` bytes, strictly inside the mapping.
pub proof fn lemma_mapped_memory_is_the_mapping(q: MapRequest, addr: usize, code_start: usize, code_end: usize)
    requires
        q.wf(),
    ensures
        mapped_plan(q, addr, code_start, code_end) matches MappedPlan::Ready(v) ==> v.addr == addr
            && v.len == q.mapping_size && addr != map_failed(),
        mapped_plan(q, addr, code_start, code_end) matches MappedPlan::Commit(v, len) ==> v.addr
            == addr && v.len == q.mapping_size && addr != map_failed() && len == q.accessible_size
            && 0 < len < v.len,
        (mapped_plan(q, addr, code_start, code_end) is Ready || mapped_plan(q, addr, code_start, code_end) is Commit)
            && q.protection != Protection::JitCode
            ==> addr + q.mapping_size < code_start || addr > code_end,
{
}

/// A mapping the system refused ends the reservation with an error, whatever
/// was asked for and wherever the code allocator's region lies.
pub proof fn lemma_refused_mapping_is_an_error(q: MapRequest, code_start: usize, code_end: usize)
    ensures
        mapped_plan(q, map_failed(), code_start, code_end) == MappedPlan::Failed,
{
}

/// Once the system has made the range accessible, the reservation ends with
/// the mapping; a failure ends it with the failure's message.
pub proof fn lemma_commit_ends_reservation(
    accessible_size: usize,
    mapping_size: usize,
    iscode: bool,
    page_size: usize,
    addr: usize,
    code_start: usize,
    code_end: usize,
)
    requires
        reserve_plan(accessible_size, mapping_size, iscode, page_size) is Mapping,
        mapped_plan(
            reserve_plan(accessible_size, mapping_size, iscode, page_size)->Mapping_0,
            addr,
            code_start,
            code_end,
        ) is Commit,
    ensures
        ({
            let q = reserve_plan(accessible_size, mapping_size, iscode, page_size)->Mapping_0;
            mapped_plan(q, addr, code_start, code_end) == MappedPlan::Commit(
                MmapView { addr, len: mapping_size },
                accessible_size,
            )
        }),
        0 < accessible_size < mapping_size,
{
    let q = reserve_plan(accessible_size, mapping_size, iscode, page_size)->Mapping_0;
    lemma_reserve_asks_for_the_mapping(accessible_size, mapping_size, iscode, page_size);
    lemma_mapped_memory_is_the_mapping(q, addr, code_start, code_end);
}

/// With a power-of-two page size, `with_at_least(size, ..)` reserves the
/// least page multiple that holds `size` bytes, all of it accessible; for
/// `size == 0` it asks the system for nothing.
pub proof fn lemma_at_least_covers_the_size(size: usize, iscode: bool, page_size: usize)
    requires
        is_power_of_two(page_size),
        size + page_size - 1 <= usize::MAX,
    ensures
        size == 0 ==> at_least_plan(size, iscode, page_size) is Empty,
        size != 0 ==> at_least_plan(size, iscode, page_size) is Mapping,
        at_least_plan(size, iscode, page_size) matches ReservePlan::Mapping(q) ==> q.mapping_size
            == q.accessible_size && q.mapping_size % page_size == 0 && size <= q.mapping_size < size
            + page_size && q.protection != Protection::NoAccess,
{
    lemma_round_up_is_least_page_multiple(size as int, page_size as int);
    lemma_round_up_clears_low_bits(size, page_size);
    if size == 0 {
        let m: usize = (page_size - 1) as usize;
        assert(m & !m == 0) by (bit_vector);
    }
}

/// A range that `make_accessible` hands to the system lies inside the
/// mapping, starting `start` bytes past its address.
pub proof fn lemma_access_range_inside(m: MmapView, start: usize, len: usize, page_size: usize)
    ensures
        access_plan(m, start, len, page_size) matches AccessStep::Protect { addr, len: n } ==> n == len
            && start + len <= m.len && (m.addr + m.len <= usize::MAX ==> addr == m.addr + start),
{
}


/// The protection a reservation asks for: no access while part of the mapping
/// is to stay inaccessible; otherwise memory from the code allocator exactly
/// for code, and plain readable, writable and executable memory exactly for
/// anything else.
pub proof fn lemma_reserve_protection(accessible_size: usize, mapping_size: usize, iscode: bool, page_size: usize)
    ensures
        reserve_plan(accessible_size, mapping_size, iscode, page_size) matches ReservePlan::Mapping(q) ==> {
            &&& (q.protection == Protection::NoAccess <==> accessible_size != mapping_size)
            &&& (q.protection == Protection::JitCode <==> (iscode && accessible_size == mapping_size))
            &&& (q.protection == Protection::ReadWriteExecute <==> (!iscode && accessible_size == mapping_size))
        },
{
}

/// `with_at_least` asks for all of its memory accessible: from the code
/// allocator exactly when it is for code, and as plain readable, writable
/// and executable memory otherwise.
pub proof fn lemma_at_least_protection(size: usize, iscode: bool, page_size: usize)
    ensures
        at_least_plan(size, iscode, page_size) matches ReservePlan::Mapping(q) ==> {
            &&& q.accessible_size == q.mapping_size
            &&& (q.protection == Protection::JitCode <==> iscode)
            &&& (q.protection == Protection::ReadWriteExecute <==> !iscode)
        },
{
    if page_size != 0 && size + (page_size - 1) <= usize::MAX {
        let rounded = page_multiple_at_least(size as int, page_size as int) as usize;
        lemma_reserve_protection(rounded, rounded, iscode, page_size);
    }
}

/// Memory from the code allocator is handed out as it is, at the address the
/// allocator gave and with the requested length, wherever the code region
/// lies: it is the code region.
pub proof fn lemma_code_memory_is_handed_out(q: MapRequest, addr: usize, code_start: usize, code_end: usize)
    requires
        q.wf(),
        q.protection == Protection::JitCode,
        addr != map_failed(),
    ensures
        mapped_plan(q, addr, code_start, code_end) == MappedPlan::Ready(
            MmapView { addr, len: q.mapping_size },
        ),
{
}

/// A mapping not taken from the code allocator, at an address that the
/// system did not refuse and whose end fits in `usize`, stops the process
/// exactly when it meets the code region; otherwise it is handed out at once
/// when all of it or none of it is to be accessible, and its accessible
/// part is committed first in every other case.
pub proof fn lemma_other_memory_is_checked_then_committed(
    q: MapRequest,
    addr: usize,
    code_start: usize,
    code_end: usize,
)
    requires
        q.wf(),
        q.protection != Protection::JitCode,
        addr != map_failed(),
        addr + q.mapping_size <= usize::MAX,
    ensures
        !(addr + q.mapping_size < code_start || addr > code_end) ==> mapped_plan(q, addr, code_start, code_end)
            == MappedPlan::Abort(Fault::OverlapsCodeRegion),
        (addr + q.mapping_size < code_start || addr > code_end) ==> {
            let whole = MmapView { addr, len: q.mapping_size };
            &&& (q.accessible_size == q.mapping_size || q.accessible_size == 0) ==> mapped_plan(
                q,
                addr,
                code_start,
                code_end,
            ) == MappedPlan::Ready(whole)
            &&& (0 < q.accessible_size < q.mapping_size) ==> mapped_plan(q, addr, code_start, code_end)
                == MappedPlan::Commit(whole, q.accessible_size)
        },
{
}

/// With a power-of-two page size, a range is made accessible exactly when it
/// starts and ends on page boundaries within the mapping, and then the range
/// handed on starts `start` bytes past the mapping's address and has length
/// `len`.
pub proof fn lemma_access_granted_for_aligned_ranges(m: MmapView, start: usize, len: usize, page_size: usize)
    requires
        is_power_of_two(page_size),
    ensures
        (access_plan(m, start, len, page_size) is Protect) <==> (start % page_size == 0 && len
            % page_size == 0 && start + len <= m.len),
        (start % page_size == 0 && len % page_size == 0 && start + len <= m.len) ==> access_plan(
            m,
            start,
            len,
            page_size,
        ) == (AccessStep::Protect { addr: vstd::wrapping::usize_specs::wrapping_add(m.addr, start), len }),
{
    lemma_low_bits_are_remainder(start, page_size);
    lemma_low_bits_are_remainder(len, page_size);
}

} // verus!
