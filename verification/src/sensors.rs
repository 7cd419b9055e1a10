//! Apple Silicon sensors: which SMC keys are temperatures of the CPU or the
//! GPU, and the frequency tables of the processor clusters. Talking to the
//! kernel is the caller's; these functions decide from what it read.
use vstd::prelude::*;

verus! {

/// The SMC data type of a 4-byte float (`flt `).
pub const SMC_TYPE_FLT: u32 = 0x666C_7420;

/// The SMC data type of a signed 7.8 fixed-point number (`sp78`).
pub const SMC_TYPE_SP78: u32 = 0x7370_3738;

/// The SMC data type of an unsigned 14.2 fixed-point number (`fpe2`).
pub const SMC_TYPE_FPE2: u32 = 0x6670_6532;

/// The big-endian number the bytes `b` write.
pub open spec fn be_value(b: Seq<u8>) -> int
    decreases b.len(),
{
    if b.len() == 0 {
        0
    } else {
        be_value(b.drop_last()) * 256 + b.last()
    }
}

/// The SMC key (four-character code) of a name: its first four bytes, big
/// endian.
pub open spec fn fourcc(name: Seq<char>) -> int {
    let b = vstd::utf8::encode_utf8(name);
    be_value(if b.len() > 4 { b.take(4) } else { b })
}

proof fn lemma_be_value_bound(b: Seq<u8>)
    ensures
        0 <= be_value(b),
        b.len() <= 1 ==> be_value(b) < 0x100,
        b.len() <= 2 ==> be_value(b) < 0x1_0000,
        b.len() <= 3 ==> be_value(b) < 0x100_0000,
        b.len() <= 4 ==> be_value(b) < 0x1_0000_0000,
    decreases b.len(),
{
    if b.len() > 0 {
        lemma_be_value_bound(b.drop_last());
    }
}

/// The SMC key of a name.
pub fn smc_fourcc(s: &str) -> (r: u32)
    ensures
        r == fourcc(s@),
{
    let bytes = s.as_bytes();
    let n = if bytes.len() > 4 { 4 } else { bytes.len() };
    let ghost b = vstd::utf8::encode_utf8(s@);
    assert(bytes@ == b);
    let mut acc: u32 = 0;
    let mut i: usize = 0;
    while i < n
        invariant
            n <= 4,
            n <= bytes@.len(),
            n == if b.len() > 4 { 4 } else { b.len() },
            bytes@ == b,
            i <= n,
            acc == be_value(b.take(i as int)),
        decreases n - i,
    {
        assert(b.take(i + 1).drop_last() =~= b.take(i as int));
        proof {
            lemma_be_value_bound(b.take(i as int));
        }
        let x = bytes[i];
        assert(acc < 0x100_0000);
        assert(((acc << 8u32) | (x as u32)) == acc * 256 + x) by (bit_vector)
            requires
                acc < 0x100_0000,
        ;
        acc = (acc << 8u32) | (x as u32);
        i += 1;
    }
    proof {
        if b.len() <= 4 {
            assert(b.take(n as int) =~= b);
        }
    }
    acc
}

/// What an SMC key measures, as far as the sensors shown are concerned.
#[derive(Clone, Copy, Debug, PartialEq, Eq, Structural)]
pub enum SmcKeyClass {
    /// A processor temperature (`Tp…`, `Te…`, `Ts…`).
    Cpu,
    /// A graphics temperature (`Tg…`, `TG…`).
    Gpu,
    /// Anything else.
    Other,
}

/// The four bytes of a key, most significant first.
pub open spec fn key_bytes(key: u32) -> (u8, u8, u8, u8) {
    ((key / 0x100_0000) as u8, ((key / 0x1_0000) % 0x100) as u8, ((key / 0x100) % 0x100) as u8, (key % 0x100) as u8)
}

/// Two bytes following two ASCII ones form valid UTF-8: both ASCII, or a
/// two-byte sequence.
pub open spec fn valid_utf8_pair(b2: u8, b3: u8) -> bool {
    (b2 < 0x80 && b3 < 0x80) || (0xC2 <= b2 <= 0xDF && 0x80 <= b3 <= 0xBF)
}

/// How an SMC key of the given data type is classed: only temperature
/// types, only names that are valid text.
pub open spec fn smc_key_class(key: u32, data_type: u32) -> SmcKeyClass {
    let (b0, b1, b2, b3) = key_bytes(key);
    if !(data_type == SMC_TYPE_FLT || data_type == SMC_TYPE_SP78 || data_type == SMC_TYPE_FPE2) {
        SmcKeyClass::Other
    } else if b0 != 0x54 || !valid_utf8_pair(b2, b3) {
        SmcKeyClass::Other
    } else if b1 == 0x70 || b1 == 0x65 || b1 == 0x73 {
        SmcKeyClass::Cpu
    } else if b1 == 0x67 || b1 == 0x47 {
        SmcKeyClass::Gpu
    } else {
        SmcKeyClass::Other
    }
}

/// Classes an SMC key.
pub fn classify_smc_key(key: u32, data_type: u32) -> (r: SmcKeyClass)
    ensures
        r == smc_key_class(key, data_type),
{
    let b0 = (key / 0x100_0000) as u8;
    let b1 = ((key / 0x1_0000) % 0x100) as u8;
    let b2 = ((key / 0x100) % 0x100) as u8;
    let b3 = (key % 0x100) as u8;
    if !(data_type == SMC_TYPE_FLT || data_type == SMC_TYPE_SP78 || data_type == SMC_TYPE_FPE2) {
        return SmcKeyClass::Other;
    }
    let pair_ok = (b2 < 0x80 && b3 < 0x80) || (0xC2 <= b2 && b2 <= 0xDF && 0x80 <= b3 && b3 <= 0xBF);
    if b0 != 0x54 || !pair_ok {
        SmcKeyClass::Other
    } else if b1 == 0x70 || b1 == 0x65 || b1 == 0x73 {
        SmcKeyClass::Cpu
    } else if b1 == 0x67 || b1 == 0x47 {
        SmcKeyClass::Gpu
    } else {
        SmcKeyClass::Other
    }
}

/// The temperature sensors of the SMC: the connection, and the keys of
/// processor and graphics temperatures.
pub struct SmcSensors {
    pub conn: u32,
    pub cpu_keys: Vec<u32>,
    pub gpu_keys: Vec<u32>,
}

/// The keys among `keys` (`(key, data type)`) of the given class, in order.
pub open spec fn keys_of_class(keys: Seq<(u32, u32)>, class: SmcKeyClass) -> Seq<u32>
    decreases keys.len(),
{
    if keys.len() == 0 {
        seq![]
    } else if smc_key_class(keys.last().0, keys.last().1) == class {
        keys_of_class(keys.drop_last(), class).push(keys.last().0)
    } else {
        keys_of_class(keys.drop_last(), class)
    }
}

impl SmcSensors {
    /// The sensors, given the connection opened to the SMC (if it could be)
    /// and the keys it lists with their data types. There are none without
    /// a connection or without a processor temperature key.
    pub fn new(conn: Option<u32>, keys: &Vec<(u32, u32)>) -> (r: Option<SmcSensors>)
        ensures
            match conn {
                None => r is None,
                Some(c) => if keys_of_class(keys@, SmcKeyClass::Cpu).len() == 0 {
                    r is None
                } else {
                    r matches Some(s) && s.conn == c && s.cpu_keys@ == keys_of_class(keys@, SmcKeyClass::Cpu)
                        && s.gpu_keys@ == keys_of_class(keys@, SmcKeyClass::Gpu)
                },
            },
    {
        let c = match conn {
            None => return None,
            Some(c) => c,
        };
        let mut cpu: Vec<u32> = Vec::new();
        let mut gpu: Vec<u32> = Vec::new();
        let mut i: usize = 0;
        while i < keys.len()
            invariant
                i <= keys@.len(),
                cpu@ == keys_of_class(keys@.take(i as int), SmcKeyClass::Cpu),
                gpu@ == keys_of_class(keys@.take(i as int), SmcKeyClass::Gpu),
            decreases keys@.len() - i,
        {
            let (k, t) = keys[i];
            assert(keys@.take(i + 1).drop_last() =~= keys@.take(i as int));
            assert(keys@.take(i + 1).last() == (k, t));
            match classify_smc_key(k, t) {
                SmcKeyClass::Cpu => cpu.push(k),
                SmcKeyClass::Gpu => gpu.push(k),
                SmcKeyClass::Other => {},
            }
            i += 1;
        }
        assert(keys@.take(keys@.len() as int) =~= keys@);
        if cpu.len() == 0 {
            return None;
        }
        Some(SmcSensors { conn: c, cpu_keys: cpu, gpu_keys: gpu })
    }
}

// ── Processor clusters ──────────────────────────────────────────────────────

/// The frequency tables (MHz) and core counts of the processor clusters.
pub struct SocInfo {
    pub ecpu_freqs: Vec<u32>,
    pub pcpu_freqs: Vec<u32>,
    pub gpu_freqs: Vec<u32>,
    pub ecpu_cores: u32,
    pub pcpu_cores: u32,
    pub gpu_cores: u32,
}

/// The defaults: an M1 MacBook Pro 13", used when the registry cannot be
/// read.
pub open spec fn default_soc(s: SocInfo) -> bool {
    &&& s.ecpu_freqs@ == seq![600u32, 972, 1332, 1704, 2064]
    &&& s.pcpu_freqs@ == seq![600u32, 828, 1056, 1296, 1524, 1752, 1980, 2064, 2988, 3204]
    &&& s.gpu_freqs@ == seq![396u32, 528, 720, 912, 1080, 1296]
    &&& s.ecpu_cores == 4
    &&& s.pcpu_cores == 4
    &&& s.gpu_cores == 8
}

impl Default for SocInfo {
    fn default() -> (s: SocInfo)
        ensures
            default_soc(s),
    {
        let s = SocInfo {
            ecpu_freqs: vec![600, 972, 1332, 1704, 2064],
            pcpu_freqs: vec![600, 828, 1056, 1296, 1524, 1752, 1980, 2064, 2988, 3204],
            gpu_freqs: vec![396, 528, 720, 912, 1080, 1296],
            ecpu_cores: 4,
            pcpu_cores: 4,
            gpu_cores: 8,
        };
        assert(s.ecpu_freqs@ =~= seq![600u32, 972, 1332, 1704, 2064]);
        assert(s.pcpu_freqs@ =~= seq![600u32, 828, 1056, 1296, 1524, 1752, 1980, 2064, 2988, 3204]);
        assert(s.gpu_freqs@ =~= seq![396u32, 528, 720, 912, 1080, 1296]);
        s
    }
}

impl SocInfo {
    /// What the registry gave, or the defaults when it could not be read.
    pub fn new(found: Option<SocInfo>) -> (s: SocInfo)
        ensures
            match found {
                Some(f) => s == f,
                None => default_soc(s),
            },
    {
        match found {
            Some(f) => f,
            None => SocInfo::default(),
        }
    }
}

/// The little-endian number in `d[at..at + 4]`.
pub open spec fn le_u32(d: Seq<u8>, at: int) -> int {
    d[at] + d[at + 1] * 0x100 + d[at + 2] * 0x1_0000 + d[at + 3] * 0x100_0000
}

/// The frequencies of a voltage-states table from entry `k` on: each entry
/// is 8 bytes, a little-endian frequency in MHz and a voltage; only
/// frequencies between 1 and 9999 are kept.
pub open spec fn freqs_from(d: Seq<u8>, k: int) -> Seq<u32>
    decreases d.len() - 8 * k,
{
    if k < 0 || 8 * k + 8 > d.len() {
        seq![]
    } else {
        let f = le_u32(d, 8 * k);
        if 0 < f < 10000 {
            seq![f as u32] + freqs_from(d, k + 1)
        } else {
            freqs_from(d, k + 1)
        }
    }
}

/// The frequency table in a voltage-states property (empty when shorter
/// than one entry).
pub fn freq_table_from_bytes(d: &[u8]) -> (r: Vec<u32>)
    ensures
        r@ == freqs_from(d@, 0),
{
    let mut out: Vec<u32> = Vec::new();
    let mut k: usize = 0;
    while k < d.len() / 8
        invariant
            k <= d@.len() / 8,
            out@ + freqs_from(d@, k as int) == freqs_from(d@, 0),
        decreases d@.len() / 8 - k,
    {
        let at = 8 * k;
        let f: u64 = (d[at] as u64) + (d[at + 1] as u64) * 0x100 + (d[at + 2] as u64) * 0x1_0000 + (d[at + 3] as u64)
            * 0x100_0000;
        let ghost before = out@;
        if 0 < f && f < 10000 {
            out.push(f as u32);
            assert(out@ + freqs_from(d@, k + 1) =~= before + (seq![f as u32] + freqs_from(d@, k + 1)));
        }
        k += 1;
    }
    assert(out@ + Seq::<u32>::empty() =~= out@);
    out
}


/// Every frequency of a table is between 1 and 9999 MHz.
pub open spec fn plausible_freqs(t: Seq<u32>) -> bool {
    forall|i: int| 0 <= i < t.len() ==> 0 < #[trigger] t[i] && t[i] < 10000
}

/// A table read from the registry, or the default one when it is empty.
pub open spec fn table_or(read: Seq<u32>, default: Seq<u32>) -> Seq<u32> {
    if read.len() > 0 {
        read
    } else {
        default
    }
}

proof fn lemma_freqs_plausible(d: Seq<u8>, k: int)
    ensures
        plausible_freqs(freqs_from(d, k)),
    decreases d.len() - 8 * k,
{
    if !(k < 0 || 8 * k + 8 > d.len()) {
        lemma_freqs_plausible(d, k + 1);
        let f = le_u32(d, 8 * k);
        if 0 < f < 10000 {
            let t = seq![f as u32] + freqs_from(d, k + 1);
            assert forall|i: int| 0 <= i < t.len() implies 0 < #[trigger] t[i] && t[i] < 10000 by {
                if i > 0 {
                    assert(t[i] == freqs_from(d, k + 1)[i - 1]);
                }
            }
        }
    }
}

fn freq_table_or(bytes: &[u8], default: Vec<u32>) -> (r: Vec<u32>)
    ensures
        r@ == table_or(freqs_from(bytes@, 0), default@),
{
    let t = freq_table_from_bytes(bytes);
    if t.len() > 0 {
        t
    } else {
        default
    }
}

impl SocInfo {
    /// The processor description from the registry node that lists the
    /// performance-core frequencies: the E-core, P-core and GPU frequency
    /// tables read from their voltage-states properties (each falling back
    /// to the default table when it yields no frequency), and the core
    /// counts (4, 4 and 8 when missing).
    pub fn from_registry(
        ecpu_states: &[u8],
        pcpu_states: &[u8],
        gpu_states: &[u8],
        ecpu_cores: Option<u32>,
        pcpu_cores: Option<u32>,
        gpu_cores: Option<u32>,
    ) -> (s: SocInfo)
        ensures
            s.ecpu_freqs@ == table_or(freqs_from(ecpu_states@, 0), seq![600u32, 972, 1332, 1704, 2064]),
            s.pcpu_freqs@ == table_or(
                freqs_from(pcpu_states@, 0),
                seq![600u32, 828, 1056, 1296, 1524, 1752, 1980, 2064, 2988, 3204],
            ),
            s.gpu_freqs@ == table_or(freqs_from(gpu_states@, 0), seq![396u32, 528, 720, 912, 1080, 1296]),
            s.ecpu_cores == (match ecpu_cores {
                Some(n) => n,
                None => 4,
            }),
            s.pcpu_cores == (match pcpu_cores {
                Some(n) => n,
                None => 4,
            }),
            s.gpu_cores == (match gpu_cores {
                Some(n) => n,
                None => 8,
            }),
            s.ecpu_freqs@.len() > 0 && s.pcpu_freqs@.len() > 0 && s.gpu_freqs@.len() > 0,
            plausible_freqs(s.ecpu_freqs@) && plausible_freqs(s.pcpu_freqs@) && plausible_freqs(s.gpu_freqs@),
    {
        let d = SocInfo::default();
        proof {
            lemma_freqs_plausible(ecpu_states@, 0);
            lemma_freqs_plausible(pcpu_states@, 0);
            lemma_freqs_plausible(gpu_states@, 0);
        }
        SocInfo {
            ecpu_freqs: freq_table_or(ecpu_states, d.ecpu_freqs),
            pcpu_freqs: freq_table_or(pcpu_states, d.pcpu_freqs),
            gpu_freqs: freq_table_or(gpu_states, d.gpu_freqs),
            ecpu_cores: match ecpu_cores {
                Some(n) => n,
                None => 4,
            },
            pcpu_cores: match pcpu_cores {
                Some(n) => n,
                None => 4,
            },
            gpu_cores: match gpu_cores {
                Some(n) => n,
                None => 8,
            },
        }
    }
}

/// The temperature sensors read through IOKit's HID services (no SMC access
/// needed); the readings themselves are floating point and are taken
/// outside this library.
pub struct IohidSensors;

} // verus!
