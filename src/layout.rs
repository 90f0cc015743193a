//! Layout of the embedded table files: a header record with the grid shape,
//! one record per axis, then the value grid as a run of equally sized records.
//! Doubles are kept as their IEEE-754 bit patterns (`u64`).

use vstd::prelude::*;
use crate::record::{read_fort_record, record_items, record_outcome, ByteCursor, FromRawBinary, RecordError};

verus! {

/// What reading `count` consecutive records with `size` payload bytes each,
/// starting at `pos`, gives: the position after the last one, or the first
/// defect met.
pub open spec fn records_outcome(data: Seq<u8>, pos: nat, count: nat, size: nat) -> Result<nat, RecordError>
    decreases count,
{
    if count == 0 {
        Ok(pos)
    } else {
        match records_outcome(data, pos, (count - 1) as nat, size) {
            Ok(p) => record_outcome(data, p, size),
            Err(e) => Err(e),
        }
    }
}

/// Where the `r`-th record of a run that starts at `pos` begins.
pub open spec fn record_start(data: Seq<u8>, pos: nat, r: nat, size: nat) -> nat {
    records_outcome(data, pos, r, size)->Ok_0
}

proof fn lemma_records_split(data: Seq<u8>, pos: nat, a: nat, b: nat, size: nat)
    requires
        records_outcome(data, pos, a, size) is Ok,
    ensures
        records_outcome(data, pos, a + b, size) == records_outcome(
            data,
            record_start(data, pos, a, size),
            b,
            size,
        ),
    decreases b,
{
    if b > 0 {
        lemma_records_split(data, pos, a, (b - 1) as nat, size);
        assert((a + b - 1) as nat == a + (b - 1) as nat);
    }
}

proof fn lemma_records_err_stays(data: Seq<u8>, pos: nat, a: nat, b: nat, size: nat)
    requires
        records_outcome(data, pos, a, size) is Err,
        a <= b,
    ensures
        records_outcome(data, pos, b, size) == records_outcome(data, pos, a, size),
    decreases b - a,
{
    if a < b {
        lemma_records_err_stays(data, pos, a, (b - 1) as nat, size);
    }
}

fn copy_items(src: &Vec<u64>) -> (r: Vec<u64>)
    ensures
        r@ == src@,
{
    let mut r: Vec<u64> = Vec::new();
    let mut i: usize = 0;
    while i < src.len()
        invariant
            i <= src@.len(),
            r@ == src@.subrange(0, i as int),
        decreases src@.len() - i,
    {
        r.push(src[i]);
        i = i + 1;
        proof {
            assert(r@ =~= src@.subrange(0, i as int));
        }
    }
    proof {
        assert(r@ =~= src@);
    }
    r
}

/// Reads one record of `n` doubles.
pub fn read_values(reader: &mut ByteCursor, n: usize) -> (r: Result<Vec<u64>, RecordError>)
    requires
        n * 8 <= u64::MAX,
    ensures
        final(reader).bytes() == old(reader).bytes(),
        r is Ok <==> record_outcome(old(reader).bytes(), old(reader).offset(), (n * 8) as nat) is Ok,
        r matches Err(e) ==> record_outcome(old(reader).bytes(), old(reader).offset(), (n * 8) as nat) == Err::<
            nat,
            RecordError,
        >(e),
        r matches Ok(v) ==> {
            &&& v@ == record_items::<u64>(old(reader).bytes(), old(reader).offset(), n as nat)
            &&& final(reader).offset() == old(reader).offset() + 8 + n * 8
        },
{
    let mut buffer: Vec<u64> = vec![0u64; n];
    match read_fort_record(reader, buffer.as_mut_slice()) {
        Ok(()) => Ok(buffer),
        Err(e) => Err(e),
    }
}

/// Reads `count` consecutive records of `n` doubles each.
pub fn read_records(reader: &mut ByteCursor, count: usize, n: usize) -> (r: Result<
    Vec<Vec<u64>>,
    RecordError,
>)
    requires
        n * 8 <= u64::MAX,
    ensures
        final(reader).bytes() == old(reader).bytes(),
        r is Ok <==> records_outcome(old(reader).bytes(), old(reader).offset(), count as nat, (n * 8) as nat) is Ok,
        r matches Err(e) ==> records_outcome(old(reader).bytes(), old(reader).offset(), count as nat, (n * 8) as nat)
            == Err::<nat, RecordError>(e),
        r matches Ok(rows) ==> {
            &&& rows@.len() == count
            &&& forall|j: int|
                0 <= j < count ==> (#[trigger] rows@[j])@ == record_items::<u64>(
                    old(reader).bytes(),
                    record_start(old(reader).bytes(), old(reader).offset(), j as nat, (n * 8) as nat),
                    n as nat,
                )
            &&& final(reader).offset() == record_start(
                old(reader).bytes(),
                old(reader).offset(),
                count as nat,
                (n * 8) as nat,
            )
        },
{
    let ghost data = reader.bytes();
    let ghost p = reader.offset();
    let ghost size: nat = (n * 8) as nat;
    let mut rows: Vec<Vec<u64>> = Vec::new();
    let mut i: usize = 0;
    while i < count
        invariant
            data == old(reader).bytes(),
            p == old(reader).offset(),
            size == n * 8,
            n * 8 <= u64::MAX,
            reader.bytes() == data,
            i <= count,
            records_outcome(data, p, i as nat, size) == Ok::<nat, RecordError>(reader.offset()),
            rows@.len() == i,
            forall|j: int|
                0 <= j < i ==> (#[trigger] rows@[j])@ == record_items::<u64>(
                    data,
                    record_start(data, p, j as nat, size),
                    n as nat,
                ),
        decreases count - i,
    {
        let row = match read_values(reader, n) {
            Ok(row) => row,
            Err(e) => {
                proof {
                    lemma_records_err_stays(data, p, (i + 1) as nat, count as nat, size);
                }
                return Err(e);
            },
        };
        rows.push(row);
        i = i + 1;
    }
    Ok(rows)
}

/// Reads `outer * inner` consecutive records of `n` doubles each, the record
/// numbered `o * inner + i` landing at `[o][i]`.
pub fn read_block(reader: &mut ByteCursor, outer: usize, inner: usize, n: usize) -> (r: Result<
    Vec<Vec<Vec<u64>>>,
    RecordError,
>)
    requires
        n * 8 <= u64::MAX,
    ensures
        final(reader).bytes() == old(reader).bytes(),
        r is Ok <==> records_outcome(
            old(reader).bytes(),
            old(reader).offset(),
            (outer * inner) as nat,
            (n * 8) as nat,
        ) is Ok,
        r matches Err(e) ==> records_outcome(
            old(reader).bytes(),
            old(reader).offset(),
            (outer * inner) as nat,
            (n * 8) as nat,
        ) == Err::<nat, RecordError>(e),
        r matches Ok(block) ==> {
            &&& block@.len() == outer
            &&& forall|o: int|
                0 <= o < outer ==> (#[trigger] block@[o])@.len() == inner
            &&& forall|o: int, i: int|
                0 <= o < outer && 0 <= i < inner ==> (#[trigger] block@[o]@[i])@ == record_items::<u64>(
                    old(reader).bytes(),
                    record_start(old(reader).bytes(), old(reader).offset(), (o * inner + i) as nat, (n * 8) as nat),
                    n as nat,
                )
            &&& final(reader).offset() == record_start(
                old(reader).bytes(),
                old(reader).offset(),
                (outer * inner) as nat,
                (n * 8) as nat,
            )
        },
{
    let ghost data = reader.bytes();
    let ghost p = reader.offset();
    let ghost size: nat = (n * 8) as nat;
    let mut block: Vec<Vec<Vec<u64>>> = Vec::new();
    let mut o: usize = 0;
    while o < outer
        invariant
            data == old(reader).bytes(),
            p == old(reader).offset(),
            size == n * 8,
            n * 8 <= u64::MAX,
            reader.bytes() == data,
            o <= outer,
            records_outcome(data, p, (o * inner) as nat, size) == Ok::<nat, RecordError>(reader.offset()),
            block@.len() == o,
            forall|a: int| 0 <= a < o ==> (#[trigger] block@[a])@.len() == inner,
            forall|a: int, i: int|
                0 <= a < o && 0 <= i < inner ==> (#[trigger] block@[a]@[i])@ == record_items::<u64>(
                    data,
                    record_start(data, p, (a * inner + i) as nat, size),
                    n as nat,
                ),
        decreases outer - o,
    {
        let ghost q = reader.offset();
        proof {
            assert((o + 1) * inner == o * inner + inner) by (nonlinear_arith);
            assert((o + 1) * inner <= outer * inner) by (nonlinear_arith)
                requires o + 1 <= outer;
            lemma_records_split(data, p, (o * inner) as nat, inner as nat, size);
        }
        let rows = match read_records(reader, inner, n) {
            Ok(rows) => rows,
            Err(e) => {
                proof {
                    lemma_records_err_stays(data, p, (o * inner + inner) as nat, (outer * inner) as nat, size);
                }
                return Err(e);
            },
        };
        proof {
            assert forall|i: int| 0 <= i < inner implies #[trigger] record_start(data, q, i as nat, size)
                == record_start(data, p, (o * inner + i) as nat, size) by {
                lemma_records_split(data, p, (o * inner) as nat, i as nat, size);
            }
        }
        block.push(rows);
        o = o + 1;
    }
    Ok(block)
}

/// Grid shape in the header of an equation-of-state table that starts at
/// `p0`: energy points, volume points, state variables.
pub open spec fn eos_shape(data: Seq<u8>, p0: nat) -> (nat, nat, nat) {
    let h = record_items::<u32>(data, p0, 3);
    (h[0] as nat, h[1] as nat, h[2] as nat)
}

/// Where the energy axis record of an equation-of-state table starts.
pub open spec fn eos_energy_start(data: Seq<u8>, p0: nat) -> nat {
    p0 + 28 + eos_shape(data, p0).1 * 8
}

/// Where the value records of an equation-of-state table start.
pub open spec fn eos_values_start(data: Seq<u8>, p0: nat) -> nat {
    eos_energy_start(data, p0) + 8 + eos_shape(data, p0).0 * 8
}

/// What decoding an equation-of-state table at `p0` gives: the position after
/// it, or the first defect met. The records are the shape, the volume axis,
/// the energy axis, then one record of state variables per grid point, the
/// energy index running fastest.
pub open spec fn eos_outcome(data: Seq<u8>, p0: nat) -> Result<nat, RecordError> {
    let (ne, nv, nvars) = eos_shape(data, p0);
    match record_outcome(data, p0, 12) {
        Err(e) => Err(e),
        Ok(p1) => match record_outcome(data, p1, nv * 8) {
            Err(e) => Err(e),
            Ok(p2) => match record_outcome(data, p2, ne * 8) {
                Err(e) => Err(e),
                Ok(p3) => records_outcome(data, p3, nv * ne, nvars * 8),
            },
        },
    }
}

/// The decoded content of an equation-of-state table at one composition,
/// doubles given by their bit patterns.
pub struct RawTableContent {
    /// Number of state variables at each grid point.
    pub n_vars: usize,
    /// Volume axis (log).
    pub log_volume: Vec<u64>,
    /// Energy axis (log).
    pub log_energy: Vec<u64>,
    /// State variables indexed by energy, then volume, then variable.
    pub values: Vec<Vec<Vec<u64>>>,
}

impl RawTableContent {
    /// Decodes an equation-of-state table. The file stores the grid with the
    /// volume index running slowest; the result is indexed by energy first.
    pub fn read_from(reader: &mut ByteCursor) -> (r: Result<Self, RecordError>)
        ensures
            final(reader).bytes() == old(reader).bytes(),
            r is Ok <==> eos_outcome(old(reader).bytes(), old(reader).offset()) is Ok,
            r matches Err(e) ==> eos_outcome(old(reader).bytes(), old(reader).offset()) == Err::<
                nat,
                RecordError,
            >(e),
            r matches Ok(c) ==> {
                let data = old(reader).bytes();
                let p0 = old(reader).offset();
                let (ne, nv, nvars) = eos_shape(data, p0);
                &&& final(reader).offset() == eos_outcome(data, p0)->Ok_0
                &&& c.n_vars == nvars
                &&& c.log_volume@ == record_items::<u64>(data, p0 + 20, nv)
                &&& c.log_energy@ == record_items::<u64>(data, eos_energy_start(data, p0), ne)
                &&& c.values@.len() == ne
                &&& forall|ie: int| 0 <= ie < ne ==> (#[trigger] c.values@[ie])@.len() == nv
                &&& forall|ie: int, iv: int|
                    0 <= ie < ne && 0 <= iv < nv ==> (#[trigger] c.values@[ie]@[iv])@
                        == record_items::<u64>(
                        data,
                        record_start(data, eos_values_start(data, p0), (iv * ne + ie) as nat, nvars * 8),
                        nvars,
                    )
            },
    {
        let ghost data = reader.bytes();
        let ghost p0 = reader.offset();
        let mut header: Vec<u32> = vec![0u32; 3];
        match read_fort_record(reader, header.as_mut_slice()) {
            Ok(()) => {},
            Err(e) => return Err(e),
        }
        let n_energy = header[0] as usize;
        let n_volume = header[1] as usize;
        let n_vars = header[2] as usize;
        let log_volume = match read_values(reader, n_volume) {
            Ok(v) => v,
            Err(e) => return Err(e),
        };
        let log_energy = match read_values(reader, n_energy) {
            Ok(v) => v,
            Err(e) => return Err(e),
        };
        let by_volume = match read_block(reader, n_volume, n_energy, n_vars) {
            Ok(b) => b,
            Err(e) => {
                proof {
                    assert(n_volume * n_energy == n_energy * n_volume) by (nonlinear_arith);
                }
                return Err(e);
            },
        };
        proof {
            assert(n_volume * n_energy == n_energy * n_volume) by (nonlinear_arith);
        }
        let mut values: Vec<Vec<Vec<u64>>> = Vec::new();
        let mut ie: usize = 0;
        while ie < n_energy
            invariant
                ie <= n_energy,
                by_volume@.len() == n_volume,
                forall|o: int| 0 <= o < n_volume ==> (#[trigger] by_volume@[o])@.len() == n_energy,
                values@.len() == ie,
                forall|a: int| 0 <= a < ie ==> (#[trigger] values@[a])@.len() == n_volume,
                forall|a: int, b: int|
                    0 <= a < ie && 0 <= b < n_volume ==> (#[trigger] values@[a]@[b])@
                        == by_volume@[b]@[a]@,
            decreases n_energy - ie,
        {
            let mut row: Vec<Vec<u64>> = Vec::new();
            let mut iv: usize = 0;
            while iv < n_volume
                invariant
                    ie < n_energy,
                    iv <= n_volume,
                    by_volume@.len() == n_volume,
                    forall|o: int| 0 <= o < n_volume ==> (#[trigger] by_volume@[o])@.len() == n_energy,
                    row@.len() == iv,
                    forall|b: int| 0 <= b < iv ==> (#[trigger] row@[b])@ == by_volume@[b]@[ie as int]@,
                decreases n_volume - iv,
            {
                row.push(copy_items(&by_volume[iv][ie]));
                iv = iv + 1;
            }
            values.push(row);
            ie = ie + 1;
        }
        Ok(RawTableContent { n_vars, log_volume, log_energy, values })
    }
}

/// Grid shape of an opacity table that starts at `p0`: metallicities,
/// hydrogen fractions, temperatures, opacity ratios. The header stores the
/// last two counts in the other order.
pub open spec fn opacity_shape(data: Seq<u8>, p0: nat) -> (nat, nat, nat, nat) {
    let h = record_items::<u32>(data, p0, 4);
    (h[0] as nat, h[1] as nat, h[3] as nat, h[2] as nat)
}

/// Where the hydrogen fraction axis record of an opacity table starts.
pub open spec fn opacity_h_frac_start(data: Seq<u8>, p0: nat) -> nat {
    p0 + 32 + opacity_shape(data, p0).0 * 8
}

/// Where the temperature axis record of an opacity table starts.
pub open spec fn opacity_temperature_start(data: Seq<u8>, p0: nat) -> nat {
    opacity_h_frac_start(data, p0) + 8 + opacity_shape(data, p0).1 * 8
}

/// Where the opacity ratio axis record of an opacity table starts.
pub open spec fn opacity_r_start(data: Seq<u8>, p0: nat) -> nat {
    opacity_temperature_start(data, p0) + 8 + opacity_shape(data, p0).2 * 8
}

/// Where the value records of an opacity table start.
pub open spec fn opacity_values_start(data: Seq<u8>, p0: nat) -> nat {
    opacity_r_start(data, p0) + 8 + opacity_shape(data, p0).3 * 8
}

/// What decoding an opacity table at `p0` gives: the position after it, or
/// the first defect met. The records are the shape, the four axes, then one
/// record of opacities along the ratio axis per (metallicity, hydrogen
/// fraction, temperature), the temperature index running fastest.
pub open spec fn opacity_outcome(data: Seq<u8>, p0: nat) -> Result<nat, RecordError> {
    let (nz, nx, nt, nr) = opacity_shape(data, p0);
    match record_outcome(data, p0, 16) {
        Err(e) => Err(e),
        Ok(p1) => match record_outcome(data, p1, nz * 8) {
            Err(e) => Err(e),
            Ok(p2) => match record_outcome(data, p2, nx * 8) {
                Err(e) => Err(e),
                Ok(p3) => match record_outcome(data, p3, nt * 8) {
                    Err(e) => Err(e),
                    Ok(p4) => match record_outcome(data, p4, nr * 8) {
                        Err(e) => Err(e),
                        Ok(p5) => records_outcome(data, p5, nz * (nx * nt), nr * 8),
                    },
                },
            },
        },
    }
}

/// The decoded content of the opacity table, doubles given by their bit
/// patterns.
pub struct RawOpacityContent {
    /// Metallicity axis.
    pub metallicities: Vec<u64>,
    /// Hydrogen fraction axis.
    pub h_fracs: Vec<u64>,
    /// Temperature axis (log).
    pub log_temperature: Vec<u64>,
    /// Opacity ratio axis (log).
    pub log_r: Vec<u64>,
    /// Opacities indexed by metallicity, hydrogen fraction, temperature, ratio.
    pub values: Vec<Vec<Vec<Vec<u64>>>>,
}

impl RawOpacityContent {
    /// Decodes the opacity table.
    pub fn read_from(reader: &mut ByteCursor) -> (r: Result<Self, RecordError>)
        ensures
            final(reader).bytes() == old(reader).bytes(),
            r is Ok <==> opacity_outcome(old(reader).bytes(), old(reader).offset()) is Ok,
            r matches Err(e) ==> opacity_outcome(old(reader).bytes(), old(reader).offset()) == Err::<
                nat,
                RecordError,
            >(e),
            r matches Ok(c) ==> {
                let data = old(reader).bytes();
                let p0 = old(reader).offset();
                let (nz, nx, nt, nr) = opacity_shape(data, p0);
                &&& final(reader).offset() == opacity_outcome(data, p0)->Ok_0
                &&& c.metallicities@ == record_items::<u64>(data, p0 + 24, nz)
                &&& c.h_fracs@ == record_items::<u64>(data, opacity_h_frac_start(data, p0), nx)
                &&& c.log_temperature@ == record_items::<u64>(
                    data,
                    opacity_temperature_start(data, p0),
                    nt,
                )
                &&& c.log_r@ == record_items::<u64>(data, opacity_r_start(data, p0), nr)
                &&& c.values@.len() == nz
                &&& forall|iz: int| 0 <= iz < nz ==> (#[trigger] c.values@[iz])@.len() == nx
                &&& forall|iz: int, ix: int|
                    0 <= iz < nz && 0 <= ix < nx ==> (#[trigger] c.values@[iz]@[ix])@.len() == nt
                &&& forall|iz: int, ix: int, it: int|
                    0 <= iz < nz && 0 <= ix < nx && 0 <= it < nt ==> (#[trigger] c.values@[iz]@[ix]@[it])@
                        == record_items::<u64>(
                        data,
                        record_start(
                            data,
                            opacity_values_start(data, p0),
                            ((iz * nx + ix) * nt + it) as nat,
                            nr * 8,
                        ),
                        nr,
                    )
            },
    {
        let ghost data = reader.bytes();
        let ghost p0 = reader.offset();
        let mut header: Vec<u32> = vec![0u32; 4];
        match read_fort_record(reader, header.as_mut_slice()) {
            Ok(()) => {},
            Err(e) => return Err(e),
        }
        let n_metal = header[0] as usize;
        let n_h_frac = header[1] as usize;
        let n_r = header[2] as usize;
        let n_temperature = header[3] as usize;
        let metallicities = match read_values(reader, n_metal) {
            Ok(v) => v,
            Err(e) => return Err(e),
        };
        let h_fracs = match read_values(reader, n_h_frac) {
            Ok(v) => v,
            Err(e) => return Err(e),
        };
        let log_temperature = match read_values(reader, n_temperature) {
            Ok(v) => v,
            Err(e) => return Err(e),
        };
        let log_r = match read_values(reader, n_r) {
            Ok(v) => v,
            Err(e) => return Err(e),
        };
        let ghost p5 = reader.offset();
        let ghost per_metal: nat = (n_h_frac * n_temperature) as nat;
        let ghost size: nat = (n_r * 8) as nat;
        let mut values: Vec<Vec<Vec<Vec<u64>>>> = Vec::new();
        let mut iz: usize = 0;
        while iz < n_metal
            invariant
                data == old(reader).bytes(),
                reader.bytes() == data,
                p0 == old(reader).offset(),
                p5 == opacity_values_start(data, p0),
                per_metal == n_h_frac * n_temperature,
                opacity_shape(data, p0) == (n_metal as nat, n_h_frac as nat, n_temperature as nat, n_r as nat),
                opacity_outcome(data, p0) == records_outcome(data, p5, (n_metal * per_metal) as nat, size),
                size == n_r * 8,
                n_r * 8 <= u64::MAX,
                iz <= n_metal,
                records_outcome(data, p5, (iz * per_metal) as nat, size) == Ok::<nat, RecordError>(
                    reader.offset(),
                ),
                values@.len() == iz,
                forall|a: int| 0 <= a < iz ==> (#[trigger] values@[a])@.len() == n_h_frac,
                forall|a: int, b: int|
                    0 <= a < iz && 0 <= b < n_h_frac ==> (#[trigger] values@[a]@[b])@.len()
                        == n_temperature,
                forall|a: int, b: int, c: int|
                    0 <= a < iz && 0 <= b < n_h_frac && 0 <= c < n_temperature ==> (#[trigger] values@[a]@[b]@[c])@
                        == record_items::<u64>(
                        data,
                        record_start(data, p5, ((a * n_h_frac + b) * n_temperature + c) as nat, size),
                        n_r as nat,
                    ),
            decreases n_metal - iz,
        {
            let ghost q = reader.offset();
            proof {
                assert((iz + 1) * per_metal == iz * per_metal + per_metal) by (nonlinear_arith);
                assert((iz + 1) * per_metal <= n_metal * per_metal) by (nonlinear_arith)
                    requires iz + 1 <= n_metal;
                lemma_records_split(data, p5, (iz * per_metal) as nat, per_metal, size);
            }
            let block = match read_block(reader, n_h_frac, n_temperature, n_r) {
                Ok(b) => b,
                Err(e) => {
                    proof {
                        lemma_records_err_stays(
                            data,
                            p5,
                            (iz * per_metal + per_metal) as nat,
                            (n_metal * per_metal) as nat,
                            size,
                        );
                    }
                    return Err(e);
                },
            };
            proof {
                assert forall|b: int, c: int|
                    0 <= b < n_h_frac && 0 <= c < n_temperature implies #[trigger] record_start(
                    data,
                    q,
                    (b * n_temperature + c) as nat,
                    size,
                ) == record_start(data, p5, ((iz * n_h_frac + b) * n_temperature + c) as nat, size) by {
                    assert(0 <= b * n_temperature) by (nonlinear_arith)
                        requires 0 <= b;
                    assert((iz * n_h_frac + b) * n_temperature + c == iz * per_metal + (b
                        * n_temperature + c)) by (nonlinear_arith)
                        requires per_metal == n_h_frac * n_temperature;
                    lemma_records_split(
                        data,
                        p5,
                        (iz * per_metal) as nat,
                        (b * n_temperature + c) as nat,
                        size,
                    );
                }
            }
            values.push(block);
            iz = iz + 1;
        }
        Ok(RawOpacityContent { metallicities, h_fracs, log_temperature, log_r, values })
    }
}

} // verus!
