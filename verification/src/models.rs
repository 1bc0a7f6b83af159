use vstd::prelude::*;

verus! {

/// One observation extracted from a single feed line.  It is handed to the
/// store right away and never kept: the store merges it into an
/// `AggregatedSpot`.
///
/// Frequencies are carried as thousandths of a kilohertz (`frequency_mkhz`),
/// so `14025.2 kHz` is `14025200`.
#[derive(Debug)]
pub struct RawSpot {
    /// Callsign of the station that reported the spot, with any trailing
    /// `-`, `#` or `:` characters already stripped.
    pub spotter_callsign: String,
    /// Callsign of the station that was heard.
    pub spotted_callsign: String,
    /// Frequency in thousandths of a kilohertz.
    pub frequency_mkhz: u64,
    /// Signal-to-noise ratio in dB.
    pub snr: i32,
    /// Keying speed in words per minute.
    pub wpm: u32,
    /// Mode token of the report (for example `CW`).
    pub mode: String,
}

impl RawSpot {
    pub fn new(
        spotter_callsign: String,
        spotted_callsign: String,
        frequency_mkhz: u64,
        snr: i32,
        wpm: u32,
        mode: String,
    ) -> (r: Self)
        ensures
            r == (RawSpot { spotter_callsign, spotted_callsign, frequency_mkhz, snr, wpm, mode }),
    {
        RawSpot { spotter_callsign, spotted_callsign, frequency_mkhz, snr, wpm, mode }
    }
}

impl Clone for RawSpot {
    fn clone(&self) -> (r: Self)
        ensures
            r == *self,
    {
        RawSpot {
            spotter_callsign: self.spotter_callsign.clone(),
            spotted_callsign: self.spotted_callsign.clone(),
            frequency_mkhz: self.frequency_mkhz,
            snr: self.snr,
            wpm: self.wpm,
            mode: self.mode.clone(),
        }
    }
}

/// One record of the store: every observation of the same target callsign on
/// the same rounded frequency is merged into it.
#[derive(Debug)]
pub struct AggregatedSpot {
    /// Callsign of the station that was heard (half of the record's key).
    pub spotted_callsign: String,
    /// Displayed frequency in thousandths of a kilohertz: the exact frequency
    /// of the observation that created the record, never altered afterwards.
    pub frequency_mkhz: u64,
    /// Highest signal-to-noise ratio observed so far, in dB.
    pub highest_snr: i32,
    /// Time of the most recent observation, in milliseconds of the caller's
    /// clock.
    pub last_spotted_ms: u64,
    /// Mode token of the most recent observation.
    pub mode: String,
    /// Keying speed of the most recent observation, in words per minute.
    pub wpm: u32,
}

/// Frequency rounded to the nearest whole kilohertz (halves round up): the
/// frequency half of a record's key.
pub open spec fn round_khz(freq_mkhz: u64) -> int {
    freq_mkhz as int / 1000 + if freq_mkhz as int % 1000 >= 500 {
        1int
    } else {
        0int
    }
}

/// The identity of a record: target callsign and rounded frequency.
pub open spec fn rec_key(r: AggregatedSpot) -> (Seq<char>, int) {
    (r.spotted_callsign@, round_khz(r.frequency_mkhz))
}

/// The key an observation falls under.
pub open spec fn raw_key(r: RawSpot) -> (Seq<char>, int) {
    (r.spotted_callsign@, round_khz(r.frequency_mkhz))
}

/// The record a first observation for a key creates.
pub open spec fn seeded(raw: RawSpot, now_ms: u64) -> AggregatedSpot {
    AggregatedSpot {
        spotted_callsign: raw.spotted_callsign,
        frequency_mkhz: raw.frequency_mkhz,
        highest_snr: raw.snr,
        last_spotted_ms: now_ms,
        mode: raw.mode,
        wpm: raw.wpm,
    }
}

/// The record after a later observation for the same key is merged in:
/// the SNR keeps its maximum, the timestamp is refreshed, the descriptive
/// fields take the newest values, and the displayed frequency stays.
pub open spec fn merged(cur: AggregatedSpot, raw: RawSpot, now_ms: u64) -> AggregatedSpot {
    AggregatedSpot {
        spotted_callsign: cur.spotted_callsign,
        frequency_mkhz: cur.frequency_mkhz,
        highest_snr: if raw.snr > cur.highest_snr {
            raw.snr
        } else {
            cur.highest_snr
        },
        last_spotted_ms: now_ms,
        mode: raw.mode,
        wpm: raw.wpm,
    }
}

impl AggregatedSpot {
    /// Seed a new record from an observation at the given time.
    pub fn from_raw(raw: RawSpot, now_ms: u64) -> (r: Self)
        ensures
            r == seeded(raw, now_ms),
    {
        AggregatedSpot {
            spotted_callsign: raw.spotted_callsign,
            frequency_mkhz: raw.frequency_mkhz,
            highest_snr: raw.snr,
            last_spotted_ms: now_ms,
            mode: raw.mode,
            wpm: raw.wpm,
        }
    }

    /// Merge a later observation for the same key into this record.
    pub fn update(&mut self, raw: RawSpot, now_ms: u64)
        ensures
            *final(self) == merged(*old(self), raw, now_ms),
    {
        if raw.snr > self.highest_snr {
            self.highest_snr = raw.snr;
        }
        self.last_spotted_ms = now_ms;
        self.mode = raw.mode;
        self.wpm = raw.wpm;
    }
}

impl Clone for AggregatedSpot {
    fn clone(&self) -> (r: Self)
        ensures
            r == *self,
    {
        AggregatedSpot {
            spotted_callsign: self.spotted_callsign.clone(),
            frequency_mkhz: self.frequency_mkhz,
            highest_snr: self.highest_snr,
            last_spotted_ms: self.last_spotted_ms,
            mode: self.mode.clone(),
            wpm: self.wpm,
        }
    }
}

/// Whatever order two observations for one key arrive in, the record keeps
/// the larger of the two signal-to-noise ratios, and either order leaves the
/// same maximum.
pub proof fn lemma_merge_keeps_max_snr(a: RawSpot, b: RawSpot, t1: u64, t2: u64, t3: u64, t4: u64)
    ensures
        merged(seeded(a, t1), b, t2).highest_snr == if a.snr >= b.snr {
            a.snr
        } else {
            b.snr
        },
        merged(seeded(a, t1), b, t2).highest_snr == merged(seeded(b, t3), a, t4).highest_snr,
{
}

} // verus!
