// modules/network.rs — download rate and link state of the network module.

use vstd::prelude::*;

use crate::modules::AppState;
use crate::util::{chars_of, parse_i64, parsed_i64, trim, trim_bounds};

verus! {

/// The download rate over one sampling interval: `bytes` received in `nanos` nanoseconds.
/// A counter that went backwards counts as nothing received.
#[derive(Clone, Copy, Debug, PartialEq, Eq, Structural)]
pub struct Rate {
    pub bytes: u64,
    pub nanos: u64,
}

/// The receive counter of the wireless interface, sampled on each update.
/// Times are monotonic clock readings in nanoseconds.
pub struct NetState {
    prev_rx: Option<i64>,
    prev_instant: Option<u64>,
    pub speed: Option<Rate>,
}

/// The rate between a sample `(p, t)` and a later one `(rx, now)`: the bytes received,
/// or zero when the counter went backwards, over the time between them.
pub open spec fn rate_between(p: int, t: int, rx: int, now: int) -> Rate {
    Rate { bytes: (if rx - p > 0 { rx - p } else { 0 }) as u64, nanos: (now - t) as u64 }
}

impl NetState {
    /// The counter value of the last sample, if any.
    pub closed spec fn last_count(&self) -> Option<i64> {
        self.prev_rx
    }

    /// The time of the last sample, if any.
    pub closed spec fn last_time(&self) -> Option<u64> {
        self.prev_instant
    }

    /// The rate last measured, if any.
    pub closed spec fn rate(&self) -> Option<Rate> {
        self.speed
    }

    /// Whether sampling the counter text `text` at time `now` stays within `i64` when the
    /// difference to the last sample is taken.
    pub open spec fn sample_fits(&self, text: Option<&str>, now: u64) -> bool {
        match (text, self.last_count(), self.last_time()) {
            (Some(s), Some(p), Some(t)) => match parsed_i64(s@) {
                Some(rx) => now > t ==> i64::MIN <= rx - p <= i64::MAX,
                None => true,
            },
            _ => true,
        }
    }

    /// Whether `n` is what sampling the counter text `text` at time `now` makes of `self`.
    /// An unreadable or unparsable counter changes nothing. Otherwise the sample is kept, and
    /// when the previous sample is older than `now` the rate since it is recorded.
    pub open spec fn sampled(&self, text: Option<&str>, now: u64, n: &NetState) -> bool {
        if text is Some && parsed_i64(text->0@) is Some {
            let rx = parsed_i64(text->0@)->0;
            &&& n.last_count() == Some(rx)
            &&& n.last_time() == Some(now)
            &&& n.rate() == match (self.last_count(), self.last_time()) {
                (Some(p), Some(t)) => if now > t {
                    Some(rate_between(p as int, t as int, rx as int, now as int))
                } else {
                    self.rate()
                },
                _ => self.rate(),
            }
        } else {
            &&& n.last_count() == self.last_count()
            &&& n.last_time() == self.last_time()
            &&& n.rate() == self.rate()
        }
    }

    /// A state with no sample and no rate.
    pub fn new() -> (r: NetState)
        ensures
            r.last_count() is None,
            r.last_time() is None,
            r.rate() is None,
    {
        NetState { prev_rx: None, prev_instant: None, speed: None }
    }

    /// Whether sampling `text` at `now` keeps the counter difference within `i64`, which
    /// `read` needs.
    pub fn sample_in_range(&self, text: Option<&str>, now: u64) -> (r: bool)
        ensures
            r == self.sample_fits(text, now),
    {
        match (text, self.prev_rx, self.prev_instant) {
            (Some(s), Some(p), Some(t)) => match parse_i64(s) {
                Some(rx) => {
                    if now > t {
                        let d = rx as i128 - p as i128;
                        i64::MIN as i128 <= d && d <= i64::MAX as i128
                    } else {
                        true
                    }
                },
                None => true,
            },
            _ => true,
        }
    }

    /// Takes a sample, as `sampled` says: `text` is the content of the receive counter file
    /// (`None` when it could not be read) and `now` the time of reading.
    pub fn read(&mut self, text: Option<&str>, now: u64)
        requires
            old(self).sample_fits(text, now),
        ensures
            old(self).sampled(text, now, final(self)),
    {
        let s = match text {
            Some(s) => s,
            None => return ,
        };
        let rx: i64 = match parse_i64(s) {
            Some(v) => v,
            None => return ,
        };
        if let (Some(prev_rx), Some(prev_instant)) = (self.prev_rx, self.prev_instant) {
            let dt: u64 = if now > prev_instant {
                now - prev_instant
            } else {
                0
            };
            if dt > 0 {
                let diff: i64 = rx - prev_rx;
                self.prev_rx = Some(rx);
                self.prev_instant = Some(now);
                self.speed = Some(
                    Rate {
                        bytes: if diff > 0 {
                            diff as u64
                        } else {
                            0
                        },
                        nanos: dt,
                    },
                );
                return ;
            }
        }
        self.prev_rx = Some(rx);
        self.prev_instant = Some(now);
    }
}

impl Default for NetState {
    fn default() -> (r: NetState)
        ensures
            r.last_count() is None,
            r.last_time() is None,
            r.rate() is None,
    {
        NetState::new()
    }
}

/// The module's update: samples the receive counter of the wireless interface. `text` is the
/// content of its counter file (`None` when it could not be read), `now` the time of reading.
pub fn update(state: &mut AppState, text: Option<&str>, now: u64)
    requires
        old(state).net.sample_fits(text, now),
    ensures
        final(state).i3workspace == old(state).i3workspace,
        old(state).net.sampled(text, now, &final(state).net),
{
    state.net.read(text, now);
}

// ── link state ──

/// Whether an entry of `/sys/class/net` is an interface that counts for the link state:
/// neither hidden nor the loopback.
pub open spec fn is_candidate(name: Seq<char>) -> bool {
    !(name.len() > 0 && name[0] == '.') && name != seq!['l', 'o']
}

/// Whether an `operstate` file says that the interface is up.
pub open spec fn says_up(text: Seq<char>) -> bool {
    trim(text) == seq!['u', 'p']
}

/// Whether the interface called `name` counts for the link state.
pub fn is_candidate_interface(name: &str) -> (r: bool)
    ensures
        r == is_candidate(name@),
        r <==> !(name@.len() > 0 && name@[0] == '.') && name@ != seq!['l', 'o'],
{
    let cs = chars_of(name);
    if cs.len() > 0 && cs[0] == '.' {
        return false;
    }
    if cs.len() == 2 && cs[0] == 'l' && cs[1] == 'o' {
        assert(cs@ =~= seq!['l', 'o']);
        return false;
    }
    assert(cs@.len() == 2 ==> cs@ != seq!['l', 'o'] || (cs@[0] == 'l' && cs@[1] == 'o'));
    true
}

/// Whether the text of an `operstate` file, trimmed, is `up`.
pub fn operstate_is_up(text: &str) -> (r: bool)
    ensures
        r == says_up(text@),
{
    let cs = chars_of(text);
    let (a, b) = trim_bounds(&cs);
    let ghost t = cs@.subrange(a as int, b as int);
    if b - a == 2 && cs[a] == 'u' && cs[a + 1] == 'p' {
        assert(t =~= seq!['u', 'p']);
        true
    } else {
        assert(t.len() == 2 ==> t[0] == cs@[a as int] && t[1] == cs@[a + 1]);
        false
    }
}

/// Whether some interface is up. Each entry is an interface name with the text of its
/// `operstate` file, `None` where the file was not read or could not be.
pub fn network_up(interfaces: &Vec<(String, Option<String>)>) -> (r: bool)
    ensures
        r == exists|i: int|
            0 <= i < interfaces@.len() && is_candidate((#[trigger] interfaces@[i]).0@) && match
                interfaces@[i].1 {
                Some(t) => says_up(t@),
                None => false,
            },
{
    let n = interfaces.len();
    for i in 0..n
        invariant
            n == interfaces@.len(),
            forall|j: int|
                0 <= j < i ==> !(is_candidate((#[trigger] interfaces@[j]).0@) && match interfaces@[j].1 {
                    Some(t) => says_up(t@),
                    None => false,
                }),
    {
        let entry = &interfaces[i];
        if is_candidate_interface(entry.0.as_str()) {
            match &entry.1 {
                Some(t) => {
                    if operstate_is_up(t.as_str()) {
                        return true;
                    }
                },
                None => {},
            }
        }
    }
    false
}

// ── laws ──

/// After two readable samples, the later one after the earlier, the rate is the difference
/// between their counters (nothing, when the counter went backwards) over the time between
/// them, whatever the state was before.
pub proof fn lemma_rate_of_last_two_samples(
    s0: NetState,
    s1: NetState,
    s2: NetState,
    t1: &str,
    n1: u64,
    t2: &str,
    n2: u64,
)
    requires
        s0.sampled(Some(t1), n1, &s1),
        s1.sampled(Some(t2), n2, &s2),
        parsed_i64(t1@) is Some,
        parsed_i64(t2@) is Some,
        n1 < n2,
    ensures
        s2.rate() == Some(
            rate_between(
                parsed_i64(t1@)->0 as int,
                n1 as int,
                parsed_i64(t2@)->0 as int,
                n2 as int,
            ),
        ),
{
}

/// Only hidden names and the loopback are left out of the link state: a name that does not
/// start with `.` and is not `lo` counts, however long it is, and a non-empty one stays counted
/// when more characters follow it (unless that makes it `lo`).
pub proof fn lemma_candidate_names(name: Seq<char>, more: Seq<char>)
    ensures
        !(name.len() > 0 && name[0] == '.') && name != seq!['l', 'o'] ==> is_candidate(name),
        name.len() > 0 && is_candidate(name) && name + more != seq!['l', 'o'] ==> is_candidate(
            name + more,
        ),
        name.len() > 0 && name[0] == '.' ==> !is_candidate(name),
        !is_candidate(seq!['l', 'o']),
{
    if name.len() > 0 {
        assert((name + more)[0] == name[0]);
    }
}

/// The link is up as soon as one interface that counts says `up`, whatever the others say.
pub proof fn lemma_one_up_interface(interfaces: Seq<(String, Option<String>)>, i: int)
    requires
        0 <= i < interfaces.len(),
        !(interfaces[i].0@.len() > 0 && interfaces[i].0@[0] == '.'),
        interfaces[i].0@ != seq!['l', 'o'],
        interfaces[i].1 is Some,
        trim(interfaces[i].1->0@) == seq!['u', 'p'],
    ensures
        exists|k: int|
            0 <= k < interfaces.len() && is_candidate((#[trigger] interfaces[k]).0@) && match
                interfaces[k].1 {
                Some(t) => says_up(t@),
                None => false,
            },
{
    assert(is_candidate(interfaces[i].0@));
}

} // verus!
