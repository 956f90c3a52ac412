//! The byte-pattern scanner.
//!
//! A single-pass matcher in the Boyer–Moore–Horspool style, adapted to
//! wildcard matchers: at each candidate position the signature is compared
//! against the buffer, wildcards matching any byte; the scan index then
//! advances by a skip distance derived from the byte just past the current
//! window and the bad-character table of [`crate::signature::get_next_array`].
//!
//! The skip heuristic is exact for signatures without wildcards: every match
//! is reported. With wildcards a match can in rare alignments be stepped
//! over; what is reported is always a true match, in strictly ascending
//! order, and a match standing at the start of the scanned window is never
//! missed.

use vstd::prelude::*;
use crate::host::{query_region_span, Host};
use crate::memory::{access_live, read_memory};
use crate::process_manager::ProcessManager;
use crate::signature::{
    get_next_array, get_signature_array, last_index_of, lemma_last_index_of,
    lemma_parse_signature_bounded, next_table_for, parse_signature, valid_signature_text,
    WILDCARD_CODE,
};

verus! {

/// Regions at least this large are read and scanned in chunks of this many
/// bytes, through one reusable buffer.
pub const BLOCK_MAX_SIZE: u32 = 409600;

/// Whether matcher code `code` accepts byte `b`.
pub open spec fn sig_code_matches(code: u16, b: u8) -> bool {
    code == WILDCARD_CODE || code == b as u16
}

/// Whether the signature matches the buffer at position `i`: the window fits
/// and every matcher accepts its byte.
pub open spec fn sig_matches_at(sig: Seq<u16>, buf: Seq<u8>, i: int) -> bool {
    &&& 0 <= i
    &&& i + sig.len() <= buf.len()
    &&& forall|k: int| 0 <= k < sig.len() ==> sig_code_matches(sig[k], #[trigger] buf[i + k])
}

/// Skip distance at position `i`, derived from the byte just past the
/// current window: the distance that aligns the last occurrence of that
/// byte's matcher with it, the last wildcard when the byte never occurs, or
/// the whole window plus one when the signature holds neither.
pub open spec fn skip_at(sig: Seq<u16>, buf: Seq<u8>, i: int) -> int {
    let b = buf[i + sig.len()] as u16;
    let n = last_index_of(sig, b);
    if n >= 0 {
        sig.len() - n
    } else {
        let w = last_index_of(sig, WILDCARD_CODE);
        if w >= 0 {
            sig.len() - w
        } else {
            sig.len() + 1int
        }
    }
}

/// The skip distance is positive and never exceeds the window plus one.
pub proof fn lemma_skip_at_range(sig: Seq<u16>, buf: Seq<u8>, i: int)
    requires
        0 <= i,
        i + sig.len() < buf.len(),
    ensures
        1 <= skip_at(sig, buf, i) <= sig.len() + 1,
{
    let b = buf[i + sig.len()] as u16;
    lemma_last_index_of(sig, b);
    lemma_last_index_of(sig, WILDCARD_CODE);
}

/// Positions the scan reports from position `i` on, with at most `cap` of
/// them: a match at the current position is recorded, then the scan advances
/// by the skip distance; it stops once the window no longer fits.
pub open spec fn scan_from(sig: Seq<u16>, buf: Seq<u8>, i: int, cap: int) -> Seq<int>
    decreases buf.len() - i when 0 <= i
{
    if cap <= 0 || i >= buf.len() {
        seq![]
    } else {
        let found = sig_matches_at(sig, buf, i);
        let here: Seq<int> = if found {
            seq![i]
        } else {
            seq![]
        };
        if i + sig.len() >= buf.len() {
            here
        } else {
            let rest_cap = if found {
                cap - 1
            } else {
                cap
            };
            let next = i + skip_at(sig, buf, i);
            if i < next <= buf.len() {
                here + scan_from(sig, buf, next, rest_cap)
            } else {
                here
            }
        }
    }
}

/// What every reported position means: it is a true match, lies in the
/// scanned range, and positions come out strictly ascending, at most `cap`
/// of them.
pub proof fn lemma_scan_from_props(sig: Seq<u16>, buf: Seq<u8>, i: int, cap: int)
    requires
        0 <= i,
    ensures
        forall|t: int|
            0 <= t < scan_from(sig, buf, i, cap).len() ==> {
                &&& i <= #[trigger] scan_from(sig, buf, i, cap)[t]
                &&& scan_from(sig, buf, i, cap)[t] < buf.len()
                &&& scan_from(sig, buf, i, cap)[t] + sig.len() <= buf.len()
                &&& sig_matches_at(sig, buf, scan_from(sig, buf, i, cap)[t])
            },
        forall|t1: int, t2: int|
            0 <= t1 < t2 < scan_from(sig, buf, i, cap).len() ==> #[trigger] scan_from(
                sig,
                buf,
                i,
                cap,
            )[t1] < #[trigger] scan_from(sig, buf, i, cap)[t2],
        scan_from(sig, buf, i, cap).len() <= (if cap >= 0 {
            cap
        } else {
            0
        }),
    decreases buf.len() - i,
{
    let r = scan_from(sig, buf, i, cap);
    if cap <= 0 || i >= buf.len() {
    } else {
        let found = sig_matches_at(sig, buf, i);
        let here: Seq<int> = if found {
            seq![i]
        } else {
            seq![]
        };
        if i + sig.len() >= buf.len() {
        } else {
            let rest_cap: int = if found {
                cap - 1
            } else {
                cap
            };
            let next = i + skip_at(sig, buf, i);
            if i < next <= buf.len() {
                lemma_scan_from_props(sig, buf, next, rest_cap);
                let rest = scan_from(sig, buf, next, rest_cap);
                assert(r =~= here + rest);
                assert forall|t: int| 0 <= t < r.len() implies {
                    &&& i <= #[trigger] r[t]
                    &&& r[t] < buf.len()
                    &&& r[t] + sig.len() <= buf.len()
                    &&& sig_matches_at(sig, buf, r[t])
                } by {
                    if t >= here.len() {
                        assert(r[t] == rest[t - here.len()]);
                    }
                }
                assert forall|t1: int, t2: int| 0 <= t1 < t2 < r.len() implies #[trigger] r[t1]
                    < #[trigger] r[t2] by {
                    if t1 >= here.len() {
                        assert(r[t1] == rest[t1 - here.len()]);
                        assert(r[t2] == rest[t2 - here.len()]);
                    } else {
                        assert(r[t1] == i);
                        assert(r[t2] == rest[t2 - here.len()]);
                        assert(rest[t2 - here.len()] >= next);
                    }
                }
            }
        }
    }
}

/// A match standing at the start of the scanned buffer is always the first
/// report, whatever bytes the wildcard positions hold.
pub proof fn lemma_scan_match_at_start(sig: Seq<u16>, buf: Seq<u8>, cap: int)
    requires
        cap >= 1,
        sig.len() >= 1,
        sig_matches_at(sig, buf, 0),
    ensures
        scan_from(sig, buf, 0, cap).len() >= 1,
        scan_from(sig, buf, 0, cap)[0] == 0,
{
    assert(buf.len() >= 1);
}

/// Soundness of the skip for signatures without wildcards: no match begins
/// strictly between a scanned position and the position the skip lands on.
pub proof fn lemma_skip_sound(sig: Seq<u16>, buf: Seq<u8>, i: int, t: int)
    requires
        last_index_of(sig, WILDCARD_CODE) == -1,
        sig.len() >= 1,
        0 <= i,
        i + sig.len() < buf.len(),
        i < t < i + skip_at(sig, buf, i),
    ensures
        !sig_matches_at(sig, buf, t),
{
    let b = buf[i + sig.len()];
    let n = last_index_of(sig, b as u16);
    lemma_last_index_of(sig, b as u16);
    lemma_last_index_of(sig, WILDCARD_CODE);
    if sig_matches_at(sig, buf, t) {
        let j = i + sig.len() - t;
        assert(0 <= j < sig.len());
        assert(sig_code_matches(sig[j], buf[t + j]));
        assert(buf[t + j] == b);
        assert(sig[j] != WILDCARD_CODE);
        assert(sig[j] == b as u16);
        if n >= 0 {
            assert(j > n);
            assert(sig[j] != b as u16);
        } else {
            assert(sig[j] != b as u16);
        }
    }
}

/// Completeness for signatures without wildcards: as long as the cap is not
/// exhausted, every match at or past the scan position is reported.
pub proof fn lemma_scan_from_complete(sig: Seq<u16>, buf: Seq<u8>, i: int, cap: int, p: int)
    requires
        last_index_of(sig, WILDCARD_CODE) == -1,
        sig.len() >= 1,
        0 <= i <= p,
        sig_matches_at(sig, buf, p),
        scan_from(sig, buf, i, cap).len() < cap,
    ensures
        scan_from(sig, buf, i, cap).contains(p),
    decreases buf.len() - i,
{
    let r = scan_from(sig, buf, i, cap);
    assert(p + sig.len() <= buf.len());
    assert(i < buf.len());
    assert(cap >= 1);
    let found = sig_matches_at(sig, buf, i);
    let here: Seq<int> = if found {
        seq![i]
    } else {
        seq![]
    };
    if i == p {
        assert(r[0] == p);
    } else {
        // p > i, so the window at p fits strictly inside the buffer and the
        // scan cannot have stopped at i.
        assert(i + sig.len() < buf.len());
        let rest_cap: int = if found {
            cap - 1
        } else {
            cap
        };
        let next = i + skip_at(sig, buf, i);
        lemma_skip_at_range(sig, buf, i);
        assert(next <= buf.len());
        let rest = scan_from(sig, buf, next, rest_cap);
        assert(r =~= here + rest);
        if p < next {
            lemma_skip_sound(sig, buf, i, p);
            assert(false);
        }
        assert(rest.len() < rest_cap);
        lemma_scan_from_complete(sig, buf, next, rest_cap, p);
        let w = choose|w: int| 0 <= w < rest.len() && rest[w] == p;
        assert(r[here.len() + w] == p);
    }
}

/// A signature without wildcards that occurs exactly once in a buffer is
/// reported exactly once, at its position.
pub proof fn lemma_scan_exact_unique(sig: Seq<u16>, buf: Seq<u8>, cap: int, p: int)
    requires
        last_index_of(sig, WILDCARD_CODE) == -1,
        sig.len() >= 1,
        cap >= 1,
        sig_matches_at(sig, buf, p),
        forall|q: int| sig_matches_at(sig, buf, q) ==> q == p,
    ensures
        scan_from(sig, buf, 0, cap) =~= seq![p],
{
    let r = scan_from(sig, buf, 0, cap);
    lemma_scan_from_props(sig, buf, 0, cap);
    assert forall|t: int| 0 <= t < r.len() implies r[t] == p by {
        assert(sig_matches_at(sig, buf, r[t]));
    }
    if r.len() >= 2 {
        assert(r[0] < r[1]);
        assert(false);
    }
    if r.len() == 0 {
        assert(r.len() < cap);
        lemma_scan_from_complete(sig, buf, 0, cap, p);
        assert(false);
    }
}

/// Match positions rebased to absolute addresses.
pub open spec fn positions_to_addresses(ps: Seq<int>, base: int) -> Seq<u64> {
    ps.map_values(|p: int| (base + p) as u64)
}

/// Runs the matcher over one buffer read at absolute address
/// `start_address`, appending at most `cap` match addresses to
/// `result_array`.
pub fn scan_buffer(
    memory_buffer: &Vec<u8>,
    signature_array: &Vec<u16>,
    next_array: &Vec<i16>,
    start_address: u64,
    cap: usize,
    result_array: &mut Vec<u64>,
)
    requires
        next_table_for(next_array@, signature_array@),
        forall|k: int|
            0 <= k < signature_array@.len() ==> #[trigger] signature_array@[k] <= WILDCARD_CODE,
        signature_array@.len() <= 0x7FFF,
        memory_buffer@.len() + signature_array@.len() < usize::MAX,
        start_address + memory_buffer@.len() <= u64::MAX,
    ensures
        final(result_array)@ == old(result_array)@ + positions_to_addresses(
            scan_from(signature_array@, memory_buffer@, 0, cap as int),
            start_address as int,
        ),
{
    let ghost sig = signature_array@;
    let ghost buf = memory_buffer@;
    let ghost total = scan_from(sig, buf, 0, cap as int);
    let size = memory_buffer.len();
    let sig_len = signature_array.len();
    let mut i: usize = 0;
    let mut added: usize = 0;
    let ghost mut done: Seq<int> = Seq::empty();
    while i < size && added < cap
        invariant
            next_table_for(next_array@, sig),
            forall|k: int| 0 <= k < sig.len() ==> #[trigger] sig[k] <= WILDCARD_CODE,
            sig.len() <= 0x7FFF,
            buf.len() + sig.len() < usize::MAX,
            start_address + buf.len() <= u64::MAX,
            sig == signature_array@,
            buf == memory_buffer@,
            size == buf.len(),
            sig_len == sig.len(),
            0 <= i <= size,
            added <= cap,
            done.len() == added,
            forall|t: int| 0 <= t < done.len() ==> 0 <= #[trigger] done[t] < buf.len(),
            result_array@ == old(result_array)@ + positions_to_addresses(
                done,
                start_address as int,
            ),
            total == done + scan_from(sig, buf, i as int, cap - added),
        decreases size - i,
    {
        let ghost i0 = i as int;
        let ghost rem0 = cap - added;
        let mut k: usize = 0;
        while k < sig_len && i + k < size && (signature_array[k] == WILDCARD_CODE
            || signature_array[k] == memory_buffer[i + k] as u16)
            invariant
                sig == signature_array@,
                buf == memory_buffer@,
                size == buf.len(),
                sig_len == sig.len(),
                buf.len() + sig.len() < usize::MAX,
                0 <= i < size,
                0 <= k <= sig_len,
                i + k <= size,
                forall|t: int| 0 <= t < k ==> sig_code_matches(sig[t], #[trigger] buf[i + t]),
            decreases sig_len - k,
        {
            k = k + 1;
        }
        let matched = k == sig_len;
        proof {
            if matched {
                assert(sig_matches_at(sig, buf, i0));
            } else {
                if i + k < size {
                    assert(!sig_code_matches(sig[k as int], buf[i0 + k]));
                }
                assert(!sig_matches_at(sig, buf, i0));
            }
        }
        if matched {
            result_array.push(start_address + i as u64);
            added = added + 1;
            proof {
                done = done.push(i0);
                assert(positions_to_addresses(done, start_address as int)
                    =~= positions_to_addresses(done.drop_last(), start_address as int).push(
                    (start_address + i0) as u64,
                ));
                assert(done.drop_last() =~= done.subrange(0, done.len() - 1));
                assert(result_array@ == old(result_array)@ + positions_to_addresses(
                    done,
                    start_address as int,
                ));
            }
        }
        let ghost here: Seq<int> = if matched {
            seq![i0]
        } else {
            seq![]
        };
        let ghost rem1 = cap - added;
        if i + sig_len >= size {
            proof {
                assert(scan_from(sig, buf, i0, rem0) =~= here);
                assert(done =~= (done.subrange(0, done.len() - here.len()) + here));
                assert(total == done + scan_from(sig, buf, size as int, rem1));
            }
            i = size;
        } else {
            let next_code = memory_buffer[i + sig_len] as usize;
            let num = next_array[next_code];
            proof {
                lemma_last_index_of(sig, buf[i0 + sig.len()] as u16);
                lemma_last_index_of(sig, WILDCARD_CODE);
            }
            let d: usize = if num >= 0 {
                sig_len - num as usize
            } else {
                let w = next_array[256];
                if w >= 0 {
                    sig_len - w as usize
                } else {
                    sig_len + 1
                }
            };
            proof {
                assert(d == skip_at(sig, buf, i0));
                lemma_skip_at_range(sig, buf, i0);
                assert(scan_from(sig, buf, i0, rem0) =~= here + scan_from(
                    sig,
                    buf,
                    i0 + d,
                    rem1,
                ));
                assert(total == done + scan_from(sig, buf, i0 + d, rem1));
            }
            i = i + d;
        }
    }
    proof {
        assert(scan_from(sig, buf, i as int, cap - added) =~= Seq::<int>::empty());
        assert(done =~= total);
    }
}

/// Matches the chunk read at `addr` reports: the matcher run over the
/// chunk's bytes when they can be read, nothing when the read fails.
pub open spec fn chunk_results(
    host: Host,
    live: bool,
    sig: Seq<u16>,
    addr: int,
    size: int,
    cap: int,
) -> Seq<u64> {
    if live && host.readable_at(addr, size) {
        positions_to_addresses(scan_from(sig, host.mem_bytes(addr, size), 0, cap), addr)
    } else {
        seq![]
    }
}

/// Matches one region span yields, scanned in full chunks of
/// [`BLOCK_MAX_SIZE`] bytes and a final remainder chunk, stopping once `cap`
/// matches have been collected.
pub open spec fn region_results(
    host: Host,
    live: bool,
    sig: Seq<u16>,
    addr: int,
    r: int,
    cap: int,
) -> Seq<u64>
    decreases r when r >= 0
{
    if cap <= 0 {
        seq![]
    } else if r >= BLOCK_MAX_SIZE as int {
        let s = chunk_results(host, live, sig, addr, BLOCK_MAX_SIZE as int, cap);
        s + region_results(
            host,
            live,
            sig,
            addr + BLOCK_MAX_SIZE as int,
            r - BLOCK_MAX_SIZE as int,
            cap - s.len(),
        )
    } else {
        chunk_results(host, live, sig, addr, r, cap)
    }
}

/// Matches the whole scan yields: regions are walked from `cur` by repeated
/// region queries, each span scanned in chunks; the walk stops past the last
/// region, once `cap` matches are collected, or — when `end` is nonzero —
/// once a region carried the scan past `end`.
pub open spec fn search_results(
    host: Host,
    live: bool,
    sig: Seq<u16>,
    cur: int,
    end: int,
    cap: int,
) -> Seq<u64>
    decreases host.space_end() - cur
{
    match host.query_span(cur) {
        Option::None => seq![],
        Option::Some(span) => {
            let s = region_results(host, live, sig, cur, span, cap);
            let cap2 = cap - s.len();
            let next = cur + span;
            if cap2 <= 0 {
                s
            } else if end != 0 && next > end {
                s
            } else if cur < next <= host.space_end() {
                s + search_results(host, live, sig, next, end, cap2)
            } else {
                s
            }
        },
    }
}

/// What one full scan of `signature` over the target's memory yields:
/// malformed signature text reports no matches; so does a signature too long
/// for the skip table.
pub open spec fn search_memory_spec(
    process_manager: ProcessManager,
    host: Host,
    signature: Seq<char>,
    start: int,
    end: int,
    cap: int,
) -> Seq<u64> {
    if valid_signature_text(signature) && parse_signature(signature).len() <= 0x7FFF {
        search_results(
            host,
            access_live(process_manager, host),
            parse_signature(signature),
            start,
            end,
            cap,
        )
    } else {
        seq![]
    }
}

/// A signature match inside a chunk is a match against the process memory at
/// the rebased address.
proof fn lemma_matches_window(host: Host, sig: Seq<u16>, addr: int, size: int, p: int)
    requires
        sig_matches_at(sig, host.mem_bytes(addr, size), p),
        0 <= p,
        p + sig.len() <= size,
    ensures
        sig_matches_at(sig, host.mem_bytes(addr + p, sig.len() as int), 0),
{
    let window = host.mem_bytes(addr + p, sig.len() as int);
    let chunk = host.mem_bytes(addr, size);
    assert forall|k: int| 0 <= k < sig.len() implies sig_code_matches(
        sig[k],
        #[trigger] window[0 + k],
    ) by {
        assert(window[k] == host.byte_at(addr + p + k));
        assert(chunk[p + k] == host.byte_at(addr + p + k));
        assert(sig_code_matches(sig[k], chunk[p + k]));
    }
}

/// What every chunk-reported address means: it lies in the chunk, its window
/// is readable, the signature matches there, and addresses come out strictly
/// ascending, at most `cap` of them.
pub proof fn lemma_chunk_results_props(
    host: Host,
    live: bool,
    sig: Seq<u16>,
    addr: int,
    size: int,
    cap: int,
)
    requires
        host.wf(),
        0 <= addr,
        size >= 0,
    ensures
        forall|t: int|
            0 <= t < chunk_results(host, live, sig, addr, size, cap).len() ==> {
                &&& addr <= #[trigger] chunk_results(host, live, sig, addr, size, cap)[t]
                &&& chunk_results(host, live, sig, addr, size, cap)[t] < addr + size
                &&& chunk_results(host, live, sig, addr, size, cap)[t] + sig.len() <= u64::MAX
                &&& host.readable_at(
                    chunk_results(host, live, sig, addr, size, cap)[t] as int,
                    sig.len() as int,
                )
                &&& sig_matches_at(
                    sig,
                    host.mem_bytes(
                        chunk_results(host, live, sig, addr, size, cap)[t] as int,
                        sig.len() as int,
                    ),
                    0,
                )
            },
        forall|t1: int, t2: int|
            0 <= t1 < t2 < chunk_results(host, live, sig, addr, size, cap).len()
                ==> #[trigger] chunk_results(host, live, sig, addr, size, cap)[t1]
                < #[trigger] chunk_results(host, live, sig, addr, size, cap)[t2],
        chunk_results(host, live, sig, addr, size, cap).len() <= (if cap >= 0 {
            cap
        } else {
            0
        }),
{
    let c = chunk_results(host, live, sig, addr, size, cap);
    if live && host.readable_at(addr, size) {
        let buf = host.mem_bytes(addr, size);
        let ps = scan_from(sig, buf, 0, cap);
        lemma_scan_from_props(sig, buf, 0, cap);
        if size > 0 {
            let ri = choose|ri: int|
                0 <= ri < host.regions@.len() && (#[trigger] host.regions@[ri]).readable
                    && host.regions@[ri].contains_range(addr, size);
            crate::host::lemma_region_end_bounded(host, ri);
            assert forall|t: int| 0 <= t < c.len() implies {
                &&& addr <= #[trigger] c[t]
                &&& c[t] < addr + size
                &&& c[t] + sig.len() <= u64::MAX
                &&& host.readable_at(c[t] as int, sig.len() as int)
                &&& sig_matches_at(sig, host.mem_bytes(c[t] as int, sig.len() as int), 0)
            } by {
                let p = ps[t];
                assert(c[t] == (addr + p) as u64);
                assert(sig_matches_at(sig, buf, p));
                assert(p + sig.len() <= size);
                assert(addr + size <= host.regions@[ri].end());
                assert(addr + p + sig.len() <= u64::MAX);
                assert(c[t] == addr + p);
                assert(host.regions@[ri].contains_range(addr + p, sig.len() as int));
                assert(host.readable_at(addr + p, sig.len() as int));
                lemma_matches_window(host, sig, addr, size, p);
            }
            assert forall|t1: int, t2: int| 0 <= t1 < t2 < c.len() implies #[trigger] c[t1]
                < #[trigger] c[t2] by {
                assert(c[t1] == (addr + ps[t1]) as u64);
                assert(c[t2] == (addr + ps[t2]) as u64);
                assert(ps[t1] < ps[t2]);
                assert(ps[t2] + sig.len() <= size);
                assert(addr + size <= host.regions@[ri].end());
            }
        } else {
            assert(buf.len() == 0);
            assert(ps =~= Seq::<int>::empty());
            assert(c.len() == 0);
        }
    }
}

/// What every span-reported address means, lifted over the chunk walk.
pub proof fn lemma_region_results_props(
    host: Host,
    live: bool,
    sig: Seq<u16>,
    addr: int,
    r: int,
    cap: int,
)
    requires
        host.wf(),
        0 <= addr,
        r >= 0,
    ensures
        forall|t: int|
            0 <= t < region_results(host, live, sig, addr, r, cap).len() ==> {
                &&& addr <= #[trigger] region_results(host, live, sig, addr, r, cap)[t]
                &&& region_results(host, live, sig, addr, r, cap)[t] < addr + r
                &&& region_results(host, live, sig, addr, r, cap)[t] + sig.len() <= u64::MAX
                &&& host.readable_at(
                    region_results(host, live, sig, addr, r, cap)[t] as int,
                    sig.len() as int,
                )
                &&& sig_matches_at(
                    sig,
                    host.mem_bytes(
                        region_results(host, live, sig, addr, r, cap)[t] as int,
                        sig.len() as int,
                    ),
                    0,
                )
            },
        forall|t1: int, t2: int|
            0 <= t1 < t2 < region_results(host, live, sig, addr, r, cap).len()
                ==> #[trigger] region_results(host, live, sig, addr, r, cap)[t1]
                < #[trigger] region_results(host, live, sig, addr, r, cap)[t2],
        region_results(host, live, sig, addr, r, cap).len() <= (if cap >= 0 {
            cap
        } else {
            0
        }),
    decreases r,
{
    let e = region_results(host, live, sig, addr, r, cap);
    if cap <= 0 {
    } else if r >= BLOCK_MAX_SIZE as int {
        let s = chunk_results(host, live, sig, addr, BLOCK_MAX_SIZE as int, cap);
        let rest = region_results(
            host,
            live,
            sig,
            addr + BLOCK_MAX_SIZE as int,
            r - BLOCK_MAX_SIZE as int,
            cap - s.len(),
        );
        lemma_chunk_results_props(host, live, sig, addr, BLOCK_MAX_SIZE as int, cap);
        lemma_region_results_props(
            host,
            live,
            sig,
            addr + BLOCK_MAX_SIZE as int,
            r - BLOCK_MAX_SIZE as int,
            cap - s.len(),
        );
        assert(e =~= s + rest);
        assert forall|t: int| 0 <= t < e.len() implies {
            &&& addr <= #[trigger] e[t]
            &&& e[t] < addr + r
            &&& e[t] + sig.len() <= u64::MAX
            &&& host.readable_at(e[t] as int, sig.len() as int)
            &&& sig_matches_at(sig, host.mem_bytes(e[t] as int, sig.len() as int), 0)
        } by {
            if t < s.len() {
                assert(e[t] == s[t]);
            } else {
                assert(e[t] == rest[t - s.len()]);
            }
        }
        assert forall|t1: int, t2: int| 0 <= t1 < t2 < e.len() implies #[trigger] e[t1]
            < #[trigger] e[t2] by {
            if t2 < s.len() {
                assert(e[t1] == s[t1] && e[t2] == s[t2]);
            } else if t1 >= s.len() {
                assert(e[t1] == rest[t1 - s.len()] && e[t2] == rest[t2 - s.len()]);
            } else {
                assert(e[t1] == s[t1] && e[t2] == rest[t2 - s.len()]);
                assert(s[t1] < addr + BLOCK_MAX_SIZE as int);
                assert(rest[t2 - s.len()] >= addr + BLOCK_MAX_SIZE as int);
            }
        }
    } else {
        lemma_chunk_results_props(host, live, sig, addr, r, cap);
    }
}

/// What every scan-reported address means: it is at or past the scan start,
/// its window is readable and the signature matches there; addresses come
/// out strictly ascending, at most `cap` of them.
pub proof fn lemma_search_results_props(
    host: Host,
    live: bool,
    sig: Seq<u16>,
    cur: int,
    end: int,
    cap: int,
)
    requires
        host.wf(),
        0 <= cur,
    ensures
        forall|t: int|
            0 <= t < search_results(host, live, sig, cur, end, cap).len() ==> {
                &&& cur <= #[trigger] search_results(host, live, sig, cur, end, cap)[t]
                &&& search_results(host, live, sig, cur, end, cap)[t] + sig.len() <= u64::MAX
                &&& host.readable_at(
                    search_results(host, live, sig, cur, end, cap)[t] as int,
                    sig.len() as int,
                )
                &&& sig_matches_at(
                    sig,
                    host.mem_bytes(
                        search_results(host, live, sig, cur, end, cap)[t] as int,
                        sig.len() as int,
                    ),
                    0,
                )
            },
        forall|t1: int, t2: int|
            0 <= t1 < t2 < search_results(host, live, sig, cur, end, cap).len()
                ==> #[trigger] search_results(host, live, sig, cur, end, cap)[t1]
                < #[trigger] search_results(host, live, sig, cur, end, cap)[t2],
        search_results(host, live, sig, cur, end, cap).len() <= (if cap >= 0 {
            cap
        } else {
            0
        }),
    decreases host.space_end() - cur,
{
    let e = search_results(host, live, sig, cur, end, cap);
    match host.query_span(cur) {
        Option::None => {},
        Option::Some(span) => {
            crate::host::lemma_query_span_some(host, cur, span);
            let s = region_results(host, live, sig, cur, span, cap);
            let cap2 = cap - s.len();
            let next = cur + span;
            lemma_region_results_props(host, live, sig, cur, span, cap);
            if cap2 <= 0 || (end != 0 && next > end) {
            } else {
                let rest = search_results(host, live, sig, next, end, cap2);
                lemma_search_results_props(host, live, sig, next, end, cap2);
                assert(e =~= s + rest);
                assert forall|t: int| 0 <= t < e.len() implies {
                    &&& cur <= #[trigger] e[t]
                    &&& e[t] + sig.len() <= u64::MAX
                    &&& host.readable_at(e[t] as int, sig.len() as int)
                    &&& sig_matches_at(sig, host.mem_bytes(e[t] as int, sig.len() as int), 0)
                } by {
                    if t < s.len() {
                        assert(e[t] == s[t]);
                    } else {
                        assert(e[t] == rest[t - s.len()]);
                    }
                }
                assert forall|t1: int, t2: int| 0 <= t1 < t2 < e.len() implies #[trigger] e[t1]
                    < #[trigger] e[t2] by {
                    if t2 < s.len() {
                        assert(e[t1] == s[t1] && e[t2] == s[t2]);
                    } else if t1 >= s.len() {
                        assert(e[t1] == rest[t1 - s.len()] && e[t2] == rest[t2 - s.len()]);
                    } else {
                        assert(e[t1] == s[t1] && e[t2] == rest[t2 - s.len()]);
                        assert(s[t1] < cur + span);
                        assert(rest[t2 - s.len()] >= next);
                    }
                }
            }
        },
    }
}

/// A scan over memory that cannot be read at all — no live attachment, or no
/// readable region — reports no matches, and no error.
pub proof fn lemma_search_results_unreadable(
    host: Host,
    live: bool,
    sig: Seq<u16>,
    cur: int,
    end: int,
    cap: int,
)
    requires
        host.wf(),
        0 <= cur,
        !live || forall|j: int| 0 <= j < host.regions@.len() ==> !(#[trigger] host.regions@[j]).readable,
    ensures
        search_results(host, live, sig, cur, end, cap) =~= Seq::<u64>::empty(),
    decreases host.space_end() - cur,
{
    match host.query_span(cur) {
        Option::None => {},
        Option::Some(span) => {
            crate::host::lemma_query_span_some(host, cur, span);
            lemma_region_results_unreadable(host, live, sig, cur, span, cap);
            let next = cur + span;
            if cap - 0 <= 0 || (end != 0 && next > end) {
            } else if cur < next <= host.space_end() {
                lemma_search_results_unreadable(host, live, sig, next, end, cap);
            }
        },
    }
}

/// What the full scan promises its callers: never more than `cap` match
/// addresses, strictly ascending, none before the scan start.
pub proof fn lemma_search_memory_bounds(
    process_manager: ProcessManager,
    host: Host,
    signature: Seq<char>,
    start: int,
    end: int,
    cap: int,
)
    requires
        host.wf(),
        0 <= start,
    ensures
        search_memory_spec(process_manager, host, signature, start, end, cap).len() <= (if cap
            >= 0 {
            cap
        } else {
            0
        }),
        forall|t1: int, t2: int|
            0 <= t1 < t2 < search_memory_spec(process_manager, host, signature, start, end, cap).len()
                ==> #[trigger] search_memory_spec(process_manager, host, signature, start, end, cap)[t1]
                < #[trigger] search_memory_spec(process_manager, host, signature, start, end, cap)[t2],
        forall|t: int|
            0 <= t < search_memory_spec(process_manager, host, signature, start, end, cap).len()
                ==> start <= #[trigger] search_memory_spec(
                process_manager,
                host,
                signature,
                start,
                end,
                cap,
            )[t],
{
    if valid_signature_text(signature) && parse_signature(signature).len() <= 0x7FFF {
        lemma_search_results_props(
            host,
            access_live(process_manager, host),
            parse_signature(signature),
            start,
            end,
            cap,
        );
    }
}

/// Reads one chunk of the target's memory into the reusable buffer and scans
/// it, appending at most `cap` match addresses. A failed chunk read — a
/// blocked or unmapped range — contributes no matches and is not an error.
pub fn search_memory_block(
    process_manager: &ProcessManager,
    host: &Host,
    memory_buffer: &mut Vec<u8>,
    next_array: &Vec<i16>,
    signature_array: &Vec<u16>,
    start_address: u64,
    size: u32,
    cap: usize,
    result_array: &mut Vec<u64>,
)
    requires
        host.wf(),
        next_table_for(next_array@, signature_array@),
        forall|k: int|
            0 <= k < signature_array@.len() ==> #[trigger] signature_array@[k] <= WILDCARD_CODE,
        signature_array@.len() <= 0x7FFF,
        size <= BLOCK_MAX_SIZE,
        start_address + size <= u64::MAX,
    ensures
        final(result_array)@ == old(result_array)@ + chunk_results(
            *host,
            access_live(*process_manager, *host),
            signature_array@,
            start_address as int,
            size as int,
            cap as int,
        ),
{
    if !read_memory(process_manager, host, start_address, memory_buffer, size as usize) {
        proof {
            assert(old(result_array)@ + chunk_results(
                *host,
                access_live(*process_manager, *host),
                signature_array@,
                start_address as int,
                size as int,
                cap as int,
            ) =~= old(result_array)@);
        }
        return ;
    }
    scan_buffer(memory_buffer, signature_array, next_array, start_address, cap, result_array);
}

/// Scans the target's memory regions from `start_address` for the textual
/// signature, returning at most `search_num` match addresses in ascending
/// order. Region queries drive the walk; regions are read in chunks of
/// [`BLOCK_MAX_SIZE`] bytes, a failed read skipping only its chunk. The walk
/// stops past the last region, at `search_num` matches, or — when
/// `end_address` is nonzero — once a region carried it past `end_address`.
/// Malformed signature text yields no matches.
pub fn search_memory(
    process_manager: &ProcessManager,
    host: &Host,
    signature: &str,
    start_address: u64,
    end_address: u64,
    search_num: i32,
) -> (result_array: Vec<u64>)
    requires
        host.wf(),
        search_num >= 0,
    ensures
        result_array@ == search_memory_spec(
            *process_manager,
            *host,
            signature@,
            start_address as int,
            end_address as int,
            search_num as int,
        ),
{
    let result_array: Vec<u64> = Vec::new();
    let signature_array = match get_signature_array(signature) {
        Option::None => {
            proof {
                assert(result_array@ =~= Seq::<u64>::empty());
            }
            return result_array;
        },
        Option::Some(v) => v,
    };
    if signature_array.len() > 0x7FFF {
        proof {
            assert(result_array@ =~= Seq::<u64>::empty());
        }
        return result_array;
    }
    proof {
        lemma_parse_signature_bounded(signature@);
    }
    let next_array = get_next_array(&signature_array);
    let ghost sig = signature_array@;
    let ghost live = access_live(*process_manager, *host);
    let ghost total = search_results(
        *host,
        live,
        sig,
        start_address as int,
        end_address as int,
        search_num as int,
    );
    let cap: usize = search_num as usize;
    let mut result_array = result_array;
    let mut memory_buffer: Vec<u8> = Vec::new();
    let mut cur: u64 = start_address;

    loop
        invariant_except_break
            total == result_array@ + search_results(
                *host,
                live,
                sig,
                cur as int,
                end_address as int,
                cap - result_array@.len(),
            ),
        invariant
            host.wf(),
            next_table_for(next_array@, sig),
            forall|k: int| 0 <= k < sig.len() ==> #[trigger] sig[k] <= WILDCARD_CODE,
            sig.len() <= 0x7FFF,
            sig == signature_array@,
            live == access_live(*process_manager, *host),
            cap == search_num as int,
            result_array@.len() <= cap,
        ensures
            result_array@ == total,
        decreases host.space_end() - cur,
    {
        match query_region_span(host, cur) {
            Option::None => {
                proof {
                    assert(result_array@ + search_results(
                        *host,
                        live,
                        sig,
                        cur as int,
                        end_address as int,
                        cap - result_array@.len(),
                    ) =~= result_array@);
                }
                break ;
            },
            Option::Some(span) => {
                proof {
                    crate::host::lemma_query_span_some(*host, cur as int, span as int);
                }
                let ghost c0 = cap - result_array@.len();
                let ghost entry_result = result_array@;
                let ghost region_total = region_results(
                    *host,
                    live,
                    sig,
                    cur as int,
                    span as int,
                    c0,
                );
                let mut remaining: u64 = span;
                let mut chunk_addr: u64 = cur;
                let ghost mut region_done: Seq<u64> = Seq::empty();
                proof {
                    assert(result_array@ =~= entry_result + region_done);
                }
                while remaining >= BLOCK_MAX_SIZE as u64 && result_array.len() < cap
                    invariant
                        host.wf(),
                        next_table_for(next_array@, sig),
                        forall|k: int| 0 <= k < sig.len() ==> #[trigger] sig[k] <= WILDCARD_CODE,
                        sig.len() <= 0x7FFF,
                        sig == signature_array@,
                        live == access_live(*process_manager, *host),
                        chunk_addr as int + remaining as int == cur as int + span as int,
                        cur as int + span as int <= host.space_end(),
                        host.space_end() <= u64::MAX,
                        result_array@.len() <= cap,
                        result_array@ == entry_result + region_done,
                        region_done.len() == result_array@.len() - entry_result.len(),
                        region_total == region_done + region_results(
                            *host,
                            live,
                            sig,
                            chunk_addr as int,
                            remaining as int,
                            c0 - region_done.len(),
                        ),
                        c0 == cap - entry_result.len(),
                    decreases remaining,
                {
                    let ghost c_now = c0 - region_done.len();
                    let ghost pre = result_array@;
                    search_memory_block(
                        process_manager,
                        host,
                        &mut memory_buffer,
                        &next_array,
                        &signature_array,
                        chunk_addr,
                        BLOCK_MAX_SIZE,
                        cap - result_array.len(),
                        &mut result_array,
                    );
                    proof {
                        let chunk = chunk_results(
                            *host,
                            live,
                            sig,
                            chunk_addr as int,
                            BLOCK_MAX_SIZE as int,
                            c_now,
                        );
                        lemma_chunk_results_props(
                            *host,
                            live,
                            sig,
                            chunk_addr as int,
                            BLOCK_MAX_SIZE as int,
                            c_now,
                        );
                        assert(region_results(
                            *host,
                            live,
                            sig,
                            chunk_addr as int,
                            remaining as int,
                            c_now,
                        ) == chunk + region_results(
                            *host,
                            live,
                            sig,
                            chunk_addr as int + BLOCK_MAX_SIZE as int,
                            remaining as int - BLOCK_MAX_SIZE as int,
                            c_now - chunk.len(),
                        ));
                        region_done = region_done + chunk;
                        assert((entry_result + region_done.subrange(
                            0,
                            region_done.len() - chunk.len(),
                        )) + chunk =~= entry_result + region_done);
                        assert(region_done.subrange(0, region_done.len() - chunk.len()) + chunk
                            =~= region_done);
                        assert(region_total == region_done + region_results(
                            *host,
                            live,
                            sig,
                            chunk_addr as int + BLOCK_MAX_SIZE as int,
                            remaining as int - BLOCK_MAX_SIZE as int,
                            c0 - region_done.len(),
                        ));
                    }
                    chunk_addr = chunk_addr + BLOCK_MAX_SIZE as u64;
                    remaining = remaining - BLOCK_MAX_SIZE as u64;
                }
                if result_array.len() < cap {
                    let ghost c_now = c0 - region_done.len();
                    search_memory_block(
                        process_manager,
                        host,
                        &mut memory_buffer,
                        &next_array,
                        &signature_array,
                        chunk_addr,
                        remaining as u32,
                        cap - result_array.len(),
                        &mut result_array,
                    );
                    proof {
                        let chunk = chunk_results(
                            *host,
                            live,
                            sig,
                            chunk_addr as int,
                            remaining as int,
                            c_now,
                        );
                        assert(region_results(
                            *host,
                            live,
                            sig,
                            chunk_addr as int,
                            remaining as int,
                            c_now,
                        ) == chunk);
                        region_done = region_done + chunk;
                        assert((entry_result + region_done.subrange(
                            0,
                            region_done.len() - chunk.len(),
                        )) + chunk =~= entry_result + region_done);
                        assert(region_done.subrange(0, region_done.len() - chunk.len()) + chunk
                            =~= region_done);
                        assert(region_total == region_done);
                    }
                } else {
                    proof {
                        assert(region_results(
                            *host,
                            live,
                            sig,
                            chunk_addr as int,
                            remaining as int,
                            c0 - region_done.len(),
                        ) =~= Seq::<u64>::empty());
                        assert(region_done + Seq::<u64>::empty() =~= region_done);
                        assert(region_total == region_done);
                    }
                }
                proof {
                    assert(result_array@ == entry_result + region_total);
                    assert(result_array@.len() == entry_result.len() + region_total.len());
                    lemma_region_results_props(*host, live, sig, cur as int, span as int, c0);
                    assert(result_array@.len() <= cap);
                }
                let next_cur = cur + span;
                let ghost cap2 = c0 - region_total.len();
                proof {
                    assert(cap2 == cap - result_array@.len());
                    assert(search_results(*host, live, sig, cur as int, end_address as int, c0)
                        == if cap2 <= 0 {
                        region_total
                    } else if end_address != 0 && next_cur as int > end_address as int {
                        region_total
                    } else {
                        region_total + search_results(
                            *host,
                            live,
                            sig,
                            next_cur as int,
                            end_address as int,
                            cap2,
                        )
                    });
                }
                cur = next_cur;
                if result_array.len() >= cap {
                    proof {
                        assert(total =~= result_array@);
                    }
                    break ;
                }
                if end_address != 0 && cur > end_address {
                    proof {
                        assert(total =~= result_array@);
                    }
                    break ;
                }
                proof {
                    assert((entry_result + region_total) + search_results(
                        *host,
                        live,
                        sig,
                        cur as int,
                        end_address as int,
                        cap2,
                    ) =~= entry_result + (region_total + search_results(
                        *host,
                        live,
                        sig,
                        cur as int,
                        end_address as int,
                        cap2,
                    )));
                    assert(total == result_array@ + search_results(
                        *host,
                        live,
                        sig,
                        cur as int,
                        end_address as int,
                        cap - result_array@.len(),
                    ));
                }
            },
        }
    }
    result_array
}

proof fn lemma_chunk_results_unreadable(
    host: Host,
    live: bool,
    sig: Seq<u16>,
    addr: int,
    size: int,
    cap: int,
)
    requires
        !live || forall|j: int|
            0 <= j < host.regions@.len() ==> !(#[trigger] host.regions@[j]).readable,
    ensures
        chunk_results(host, live, sig, addr, size, cap) =~= Seq::<u64>::empty(),
{
    if live && host.readable_at(addr, size) {
        if size != 0 {
            assert(false);
        } else {
            assert(host.mem_bytes(addr, 0).len() == 0);
        }
    }
}

proof fn lemma_region_results_unreadable(
    host: Host,
    live: bool,
    sig: Seq<u16>,
    addr: int,
    r: int,
    cap: int,
)
    requires
        r >= 0,
        !live || forall|j: int|
            0 <= j < host.regions@.len() ==> !(#[trigger] host.regions@[j]).readable,
    ensures
        region_results(host, live, sig, addr, r, cap) =~= Seq::<u64>::empty(),
    decreases r,
{
    if cap <= 0 {
    } else if r >= BLOCK_MAX_SIZE as int {
        lemma_chunk_results_unreadable(host, live, sig, addr, BLOCK_MAX_SIZE as int, cap);
        lemma_region_results_unreadable(
            host,
            live,
            sig,
            addr + BLOCK_MAX_SIZE as int,
            r - BLOCK_MAX_SIZE as int,
            cap,
        );
    } else {
        lemma_chunk_results_unreadable(host, live, sig, addr, r, cap);
    }
}

} // verus!
