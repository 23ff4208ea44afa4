//! Sensor-side data model: the decoded physical quantities of one
//! advertisement, the manufacturer-data framing in front of the external
//! decoder, and the address/alias syntax of the process input.

use ruuvi_sensor_protocol::{BatteryPotential, Humidity, Pressure, Temperature};
use vstd::prelude::*;

verus! {

/// The physical quantities decoded from one advertisement payload. Each field
/// is independently optional because an advertisement may omit a quantity.
/// Values are carried in the decoder's integer units; presentation units are a
/// concern of the unverified output layer.
#[derive(Clone, Copy, Debug, PartialEq, Eq, Structural)]
pub struct SensorReadings {
    /// Relative humidity, parts per million.
    pub humidity_ppm: Option<u32>,
    /// Temperature, milli-degrees Celsius.
    pub temperature_millicelsius: Option<i32>,
    /// Pressure, pascals.
    pub pressure_pascals: Option<u32>,
    /// Battery potential, millivolts.
    pub battery_potential_millivolts: Option<u16>,
}

/// The quantities the external decoder yields for a manufacturer id and a
/// payload. Decoding is a pure function of these two arguments; its byte-level
/// definition lives in the decoder crate and is not restated here.
pub uninterp spec fn decoded_of(id: u16, payload: Seq<u8>) -> Option<SensorReadings>;

/// Relies on `ruuvi_sensor_protocol::SensorValues::from_manufacturer_specific_data`:
/// parsing a manufacturer-specific payload is a function of the manufacturer
/// id and the payload bytes alone. A successful parse is read out through the
/// decoder crate's accessor traits; any parse failure becomes `None`, since a
/// decode failure is never fatal to a collection round.
#[verifier::external_body]
fn decode_manufacturer_payload(id: u16, payload: &[u8]) -> (r: Option<SensorReadings>)
    ensures
        r == decoded_of(id, payload@),
{
    match ruuvi_sensor_protocol::SensorValues::from_manufacturer_specific_data(id, payload) {
        Ok(v) => Some(SensorReadings {
            humidity_ppm: v.humidity_as_ppm(),
            temperature_millicelsius: v.temperature_as_millicelsius(),
            pressure_pascals: v.pressure_as_pascals(),
            battery_potential_millivolts: v.battery_potential_as_millivolts(),
        }),
        Err(_) => None,
    }
}

/// What decoding an entire manufacturer-data field yields: the first two bytes
/// are the little-endian manufacturer id, the rest is the payload handed to
/// the decoder. A field too short to contain an id and a nonempty payload
/// decodes to nothing.
pub open spec fn spec_frame_decode(data: Seq<u8>) -> Option<SensorReadings> {
    if data.len() > 2 {
        decoded_of((data[0] + data[1] * 256) as u16, data.skip(2))
    } else {
        None
    }
}

/// Splits a manufacturer-data field into id and payload and decodes it.
pub fn from_manufacturer_data(data: &[u8]) -> (r: Option<SensorReadings>)
    ensures
        r == spec_frame_decode(data@),
{
    if data.len() > 2 {
        let id: u16 = (data[0] as u16) + (data[1] as u16) * 256;
        decode_manufacturer_payload(id, vstd::slice::slice_subrange(data, 2, data.len()))
    } else {
        None
    }
}

/// The address part of a sensor argument: everything before the first `=`,
/// or the whole argument when it contains none.
pub open spec fn spec_sensor_address(s: Seq<char>) -> Seq<char> {
    match s.index_of_first('=') {
        Some(i) => s.take(i),
        None => s,
    }
}

/// The alias part of a sensor argument: the segment between the first `=` and
/// the second one (or the end), or the address itself when there is no `=`.
pub open spec fn spec_sensor_alias(s: Seq<char>) -> Seq<char> {
    match s.index_of_first('=') {
        Some(i) => {
            let rest = s.skip(i + 1);
            match rest.index_of_first('=') {
                Some(j) => rest.take(j),
                None => rest,
            }
        },
        None => s,
    }
}

/// Position of the first `=` in `s`, if any.
fn find_eq(s: &str) -> (r: Option<usize>)
    ensures
        match r {
            Some(i) => s@.index_of_first('=') == Some(i as int),
            None => s@.index_of_first('=') is None,
        },
{
    proof {
        s@.index_of_first_ensures('=');
    }
    let n = s.unicode_len();
    let mut i: usize = 0;
    while i < n
        invariant
            i <= n,
            n == s@.len(),
            forall|j: int| 0 <= j < i ==> s@[j] != '=',
        decreases n - i,
    {
        if s.get_char(i) == '=' {
            proof {
                s@.index_of_first_ensures('=');
                assert(s@[i as int] == '=');
                assert(s@.contains('='));
            }
            return Some(i);
        }
        i += 1;
    }
    None
}

/// Splits one sensor argument into its address and its alias: the address is
/// what stands before the first `=`; the alias is the following segment when
/// one is given, and the address itself otherwise.
pub fn parse_sensor(s: &str) -> (r: (&str, &str))
    ensures
        r.0@ == spec_sensor_address(s@),
        r.1@ == spec_sensor_alias(s@),
{
    let n = s.unicode_len();
    match find_eq(s) {
        None => (s, s),
        Some(i) => {
            proof {
                s@.index_of_first_ensures('=');
            }
            let address = s.substring_char(0, i);
            let rest = s.substring_char(i + 1, n);
            proof {
                assert(rest@ =~= s@.skip(i + 1));
                rest@.index_of_first_ensures('=');
            }
            let alias = match find_eq(rest) {
                None => rest,
                Some(j) => rest.substring_char(0, j),
            };
            (address, alias)
        },
    }
}

/// One reading captured for one device: the originating address, the capture
/// time in seconds since the epoch, and the decoded quantities.
#[derive(Debug)]
pub struct Reading {
    pub address: String,
    pub timestamp: u64,
    pub values: SensorReadings,
}

/// Mathematical image of a [`Reading`].
pub struct ReadingView {
    pub address: Seq<char>,
    pub timestamp: u64,
    pub values: SensorReadings,
}

impl View for Reading {
    type V = ReadingView;

    open spec fn view(&self) -> ReadingView {
        ReadingView { address: self.address@, timestamp: self.timestamp, values: self.values }
    }
}

impl Reading {
    /// Packs the decoded quantities of one advertisement into a reading.
    pub fn new(address: String, timestamp: u64, values: SensorReadings) -> (r: Reading)
        ensures
            r@ == (ReadingView { address: address@, timestamp, values }),
    {
        Reading { address, timestamp, values }
    }
}

} // verus!
