//! Records carried by each sentence kind, and the decoders that fill them.
use vstd::prelude::*;

use crate::field_reader::{FieldReader, FieldValue, Real, split_fields};
use crate::nmea::Sentence;

verus! {

/// Global Positioning System fix data.
#[derive(Clone, Debug, PartialEq)]
pub struct DataGGA {
    pub utc_time: Option<Real>,
    pub lat: Option<Real>,
    pub ns: Option<String>,
    pub lon: Option<Real>,
    pub ew: Option<String>,
    pub validity: u8,
    pub sat: Option<u8>,
    pub hdop: Option<Real>,
    pub alt: Option<Real>,
    pub units: Option<String>,
    pub gsep: Option<Real>,
    pub gsep_units: Option<String>,
    pub dgps_age: Option<Real>,
    pub dgps_id: Option<u8>,
}

/// Course over ground and ground speed.
#[derive(Clone, Debug, PartialEq)]
pub struct DataVTG {
    pub cog_true: Option<Real>,
    pub cog_magnetic: Option<Real>,
    pub sog_knots: Option<Real>,
    pub sog_kph: Option<Real>,
    pub mode: Option<String>,
}

/// Recommended minimum navigation data (no field is decoded).
#[derive(Clone, Debug, PartialEq)]
pub struct DataRMC {}

/// Time and date (no field is decoded).
#[derive(Clone, Debug, PartialEq)]
pub struct DataZDA {
    /// UTC time hhmmss.ss
    pub utc: Option<Real>,
    /// Day from 01 to 31
    pub day: Option<u8>,
    /// Month from 01 to 12
    pub month: Option<u8>,
    pub year: Option<u16>,
}

pub open spec fn empty_gga() -> DataGGA {
    DataGGA {
        utc_time: None,
        lat: None,
        ns: None,
        lon: None,
        ew: None,
        validity: 0,
        sat: None,
        hdop: None,
        alt: None,
        units: None,
        gsep: None,
        gsep_units: None,
        dgps_age: None,
        dgps_id: None,
    }
}

pub open spec fn empty_vtg() -> DataVTG {
    DataVTG { cog_true: None, cog_magnetic: None, sog_knots: None, sog_kph: None, mode: None }
}

pub open spec fn empty_zda() -> DataZDA {
    DataZDA { utc: None, day: None, month: None, year: None }
}

impl DataGGA {
    pub fn empty() -> (r: DataGGA)
        ensures
            r == empty_gga(),
    {
        DataGGA {
            utc_time: None,
            lat: None,
            ns: None,
            lon: None,
            ew: None,
            validity: 0,
            sat: None,
            hdop: None,
            alt: None,
            units: None,
            gsep: None,
            gsep_units: None,
            dgps_age: None,
            dgps_id: None,
        }
    }
}

impl DataVTG {
    pub fn empty() -> (r: DataVTG)
        ensures
            r == empty_vtg(),
    {
        DataVTG { cog_true: None, cog_magnetic: None, sog_knots: None, sog_kph: None, mode: None }
    }
}

impl DataZDA {
    pub fn empty() -> (r: DataZDA)
        ensures
            r == empty_zda(),
    {
        DataZDA { utc: None, day: None, month: None, year: None }
    }
}

/// The fields of `fs` from index `k` on.
pub open spec fn fields_from(fs: Seq<Seq<char>>, k: int) -> Seq<Seq<char>> {
    if k < fs.len() {
        fs.subrange(k, fs.len() as int)
    } else {
        Seq::empty()
    }
}

/// Field `k` is there and holds text.
pub open spec fn has_text(fs: Seq<Seq<char>>, k: int) -> bool {
    0 <= k < fs.len() && fs[k].len() > 0
}

/// An optional field `k` of type `T` reads without error.
pub open spec fn optional_ok<T: FieldValue>(fs: Seq<Seq<char>>, k: int) -> bool {
    has_text(fs, k) ==> T::spec_accepts(fs[k])
}

/// `v` is what optional field `k` of type `T` reads as.
pub open spec fn optional_is<T: FieldValue>(fs: Seq<Seq<char>>, k: int, v: Option<T>) -> bool {
    if has_text(fs, k) {
        v matches Some(x) && T::spec_denotes(fs[k], x)
    } else {
        v is None
    }
}

/// A mandatory field `k` of type `T` reads without error.
pub open spec fn mandatory_ok<T: FieldValue>(fs: Seq<Seq<char>>, k: int) -> bool {
    has_text(fs, k) && T::spec_accepts(fs[k])
}

/// The data fields of a GGA sentence decode.
pub open spec fn gga_ok(fs: Seq<Seq<char>>) -> bool {
    &&& optional_ok::<Real>(fs, 0)
    &&& optional_ok::<Real>(fs, 1)
    &&& optional_ok::<Real>(fs, 3)
    &&& mandatory_ok::<u8>(fs, 5)
    &&& optional_ok::<u8>(fs, 6)
    &&& optional_ok::<Real>(fs, 7)
    &&& optional_ok::<Real>(fs, 8)
}

/// `m` is the record that the data fields `fs` of a GGA sentence decode to:
/// time, latitude, N/S, longitude, E/W, validity, satellites, HDOP, altitude, units.
pub open spec fn gga_is(fs: Seq<Seq<char>>, m: DataGGA) -> bool {
    &&& optional_is(fs, 0, m.utc_time)
    &&& optional_is(fs, 1, m.lat)
    &&& optional_is(fs, 2, m.ns)
    &&& optional_is(fs, 3, m.lon)
    &&& optional_is(fs, 4, m.ew)
    &&& u8::spec_denotes(fs[5], m.validity)
    &&& optional_is(fs, 6, m.sat)
    &&& optional_is(fs, 7, m.hdop)
    &&& optional_is(fs, 8, m.alt)
    &&& optional_is(fs, 9, m.units)
    &&& m.gsep is None && m.gsep_units is None && m.dgps_age is None && m.dgps_id is None
}

/// The data fields of a VTG sentence decode: the four unit markers
/// (fields 1, 3, 5 and 7) must be there.
pub open spec fn vtg_ok(fs: Seq<Seq<char>>) -> bool {
    &&& optional_ok::<Real>(fs, 0)
    &&& optional_ok::<Real>(fs, 2)
    &&& optional_ok::<Real>(fs, 4)
    &&& optional_ok::<Real>(fs, 6)
    &&& fs.len() > 7
}

/// `m` is the record that the data fields `fs` of a VTG sentence decode to.
pub open spec fn vtg_is(fs: Seq<Seq<char>>, m: DataVTG) -> bool {
    &&& optional_is(fs, 0, m.cog_true)
    &&& optional_is(fs, 2, m.cog_magnetic)
    &&& optional_is(fs, 4, m.sog_knots)
    &&& optional_is(fs, 6, m.sog_kph)
    &&& optional_is(fs, 8, m.mode)
}

/// The data section `data` decodes for a sentence of the kind of `s`.
pub open spec fn fields_ok(s: Sentence, data: Seq<char>) -> bool {
    let fs = split_fields(data, ',');
    match s {
        Sentence::Invalid => false,
        Sentence::GGA(_) => gga_ok(fs),
        Sentence::VTG(_) => vtg_ok(fs),
        Sentence::RMC(_) => true,
        Sentence::ZDA(_) => true,
    }
}

/// `r` is the sentence that the data section `data` decodes to for the kind of `s`.
pub open spec fn decoded(s: Sentence, data: Seq<char>, r: Sentence) -> bool {
    let fs = split_fields(data, ',');
    match s {
        Sentence::GGA(_) => r matches Sentence::GGA(m) && gga_is(fs, m),
        Sentence::VTG(_) => r matches Sentence::VTG(m) && vtg_is(fs, m),
        _ => r == s,
    }
}

fn optional_at<T: FieldValue>(
    fin: &mut FieldReader,
    Ghost(fs): Ghost<Seq<Seq<char>>>,
    Ghost(k): Ghost<int>,
) -> (r: Option<Option<T>>)
    requires
        old(fin).wf(),
        0 <= k,
        old(fin).fields() == fields_from(fs, k),
    ensures
        final(fin).wf(),
        final(fin).separator() == old(fin).separator(),
        final(fin).fields() == fields_from(fs, k + 1),
        r is Some <==> optional_ok::<T>(fs, k),
        r matches Some(v) ==> optional_is(fs, k, v),
{
    let r = fin.read_optional::<T>();
    proof {
        if k < fs.len() {
            assert(fields_from(fs, k)[0] == fs[k]);
            assert(fields_from(fs, k).drop_first() =~= fields_from(fs, k + 1));
        }
    }
    match r {
        Ok(v) => Some(v),
        Err(_) => None,
    }
}

fn mandatory_at<T: FieldValue>(
    fin: &mut FieldReader,
    Ghost(fs): Ghost<Seq<Seq<char>>>,
    Ghost(k): Ghost<int>,
) -> (r: Option<T>)
    requires
        old(fin).wf(),
        0 <= k,
        old(fin).fields() == fields_from(fs, k),
    ensures
        final(fin).wf(),
        final(fin).separator() == old(fin).separator(),
        final(fin).fields() == fields_from(fs, k + 1),
        r is Some <==> mandatory_ok::<T>(fs, k),
        r matches Some(v) ==> T::spec_denotes(fs[k], v),
{
    let r = fin.read::<T>();
    proof {
        if k < fs.len() {
            assert(fields_from(fs, k)[0] == fs[k]);
            assert(fields_from(fs, k).drop_first() =~= fields_from(fs, k + 1));
        }
    }
    match r {
        Ok(v) => Some(v),
        Err(_) => None,
    }
}

fn skip_at(fin: &mut FieldReader, Ghost(fs): Ghost<Seq<Seq<char>>>, Ghost(k): Ghost<int>) -> (r:
    bool)
    requires
        old(fin).wf(),
        0 <= k,
        old(fin).fields() == fields_from(fs, k),
    ensures
        final(fin).wf(),
        final(fin).separator() == old(fin).separator(),
        final(fin).fields() == fields_from(fs, k + 1),
        r == (k < fs.len()),
{
    let r = fin.skip();
    proof {
        if k < fs.len() {
            assert(fields_from(fs, k).drop_first() =~= fields_from(fs, k + 1));
        }
    }
    r
}

fn decode_gga(fin: &mut FieldReader) -> (r: Option<DataGGA>)
    requires
        old(fin).wf(),
    ensures
        r is Some <==> gga_ok(old(fin).fields()),
        r matches Some(m) ==> gga_is(old(fin).fields(), m),
{
    let ghost fs = fin.fields();
    assert(fields_from(fs, 0) =~= fs);
    let utc_time = match optional_at::<Real>(fin, Ghost(fs), Ghost(0)) {
        Some(v) => v,
        None => return None,
    };
    let lat = match optional_at::<Real>(fin, Ghost(fs), Ghost(1)) {
        Some(v) => v,
        None => return None,
    };
    let ns = match optional_at::<String>(fin, Ghost(fs), Ghost(2)) {
        Some(v) => v,
        None => return None,
    };
    let lon = match optional_at::<Real>(fin, Ghost(fs), Ghost(3)) {
        Some(v) => v,
        None => return None,
    };
    let ew = match optional_at::<String>(fin, Ghost(fs), Ghost(4)) {
        Some(v) => v,
        None => return None,
    };
    let validity = match mandatory_at::<u8>(fin, Ghost(fs), Ghost(5)) {
        Some(v) => v,
        None => return None,
    };
    let sat = match optional_at::<u8>(fin, Ghost(fs), Ghost(6)) {
        Some(v) => v,
        None => return None,
    };
    let hdop = match optional_at::<Real>(fin, Ghost(fs), Ghost(7)) {
        Some(v) => v,
        None => return None,
    };
    let alt = match optional_at::<Real>(fin, Ghost(fs), Ghost(8)) {
        Some(v) => v,
        None => return None,
    };
    let units = match optional_at::<String>(fin, Ghost(fs), Ghost(9)) {
        Some(v) => v,
        None => return None,
    };
    Some(
        DataGGA {
            utc_time,
            lat,
            ns,
            lon,
            ew,
            validity,
            sat,
            hdop,
            alt,
            units,
            gsep: None,
            gsep_units: None,
            dgps_age: None,
            dgps_id: None,
        },
    )
}

fn decode_vtg(fin: &mut FieldReader) -> (r: Option<DataVTG>)
    requires
        old(fin).wf(),
    ensures
        r is Some <==> vtg_ok(old(fin).fields()),
        r matches Some(m) ==> vtg_is(old(fin).fields(), m),
{
    let ghost fs = fin.fields();
    assert(fields_from(fs, 0) =~= fs);
    let cog_true = match optional_at::<Real>(fin, Ghost(fs), Ghost(0)) {
        Some(v) => v,
        None => return None,
    };
    if !skip_at(fin, Ghost(fs), Ghost(1)) {
        return None;
    }
    let cog_magnetic = match optional_at::<Real>(fin, Ghost(fs), Ghost(2)) {
        Some(v) => v,
        None => return None,
    };
    if !skip_at(fin, Ghost(fs), Ghost(3)) {
        return None;
    }
    let sog_knots = match optional_at::<Real>(fin, Ghost(fs), Ghost(4)) {
        Some(v) => v,
        None => return None,
    };
    if !skip_at(fin, Ghost(fs), Ghost(5)) {
        return None;
    }
    let sog_kph = match optional_at::<Real>(fin, Ghost(fs), Ghost(6)) {
        Some(v) => v,
        None => return None,
    };
    if !skip_at(fin, Ghost(fs), Ghost(7)) {
        return None;
    }
    let mode = match optional_at::<String>(fin, Ghost(fs), Ghost(8)) {
        Some(v) => v,
        None => return None,
    };
    Some(DataVTG { cog_true, cog_magnetic, sog_knots, sog_kph, mode })
}

/// Decodes the data section `fields_str` for the kind of sentence `s`. On
/// success `s` holds the decoded record; on failure it is left as it was.
pub fn parse_fields(s: &mut Sentence, fields_str: String) -> (r: bool)
    ensures
        r == fields_ok(*old(s), fields_str@),
        r ==> decoded(*old(s), fields_str@, *final(s)),
        !r ==> *final(s) == *old(s),
{
    let mut fin = FieldReader::new(fields_str, ',');
    match s {
        Sentence::GGA(_) => match decode_gga(&mut fin) {
            Some(m) => {
                *s = Sentence::GGA(m);
                true
            },
            None => false,
        },
        Sentence::VTG(_) => match decode_vtg(&mut fin) {
            Some(m) => {
                *s = Sentence::VTG(m);
                true
            },
            None => false,
        },
        Sentence::RMC(_) => true,
        Sentence::ZDA(_) => true,
        Sentence::Invalid => false,
    }
}

} // verus!
