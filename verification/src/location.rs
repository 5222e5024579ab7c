//! Locations: given by a caller, or pinned.
use vstd::prelude::*;

use crate::double::{is_nan, is_within, lies_within, number, one};
use crate::geohash::{encode, encoding_is_valid, geohash, is_geohash, is_valid};
use crate::reply::{refused, ToolError, ToolErrorView};
use crate::state::{pinned_contents, pinned_location, pinning_is_remembered};
use crate::text::{quoted, string_of, to_quoted};

verus! {

/// An angle in degrees.
#[derive(Debug, PartialEq)]
pub struct Degrees {
    /// The bits of the double-precision number.
    pub bits: u64,
    /// The number as it is shown to a user.
    pub text: String,
}

/// A location, given either as a ready-made 12-character geohash or as a latitude and
/// a longitude.
#[derive(Debug, PartialEq)]
pub struct LocationArgs {
    /// A 12-character geohash. Takes precedence over latitude and longitude.
    pub geohash: Option<String>,
    /// Latitude in degrees (use together with longitude).
    pub latitude: Option<Degrees>,
    /// Longitude in degrees (use together with latitude).
    pub longitude: Option<Degrees>,
}

/// The geohash that a location stands for, or why it stands for none: an explicit
/// geohash wins, then latitude and longitude, then the pinned location.
pub open spec fn chosen_geohash(location: LocationArgs, pinned: Option<Seq<char>>) -> Result<
    Seq<char>,
    ToolErrorView,
> {
    match (location.geohash, location.latitude, location.longitude) {
        (Some(given), _, _) => if is_geohash(given@) {
            Ok(given@)
        } else {
            Err(
                ToolErrorView::InvalidParams(
                    "geohash must be exactly 12 chars from the geohash alphabet, got "@ + quoted(
                        given@,
                    ),
                ),
            )
        },
        (None, Some(lat), Some(lon)) => if is_within(lat.bits, 90) && is_within(lon.bits, 180) {
            Ok(geohash(lat.bits, lon.bits, 12))
        } else {
            Err(
                ToolErrorView::InvalidParams(
                    "latitude/longitude out of range: "@ + lat.text@ + ", "@ + lon.text@,
                ),
            )
        },
        _ => match pinned {
            Some(pinned) => Ok(pinned),
            None => Err(
                ToolErrorView::InvalidParams(
                    "no location given and none pinned: pass geohash or latitude+longitude, or set one with grindr_update_location"@,
                ),
            ),
        },
    }
}

/// Resolves a location to a 12-character geohash; `pinned` is the pinned location,
/// where there is one.
pub fn resolve_geohash(location: &LocationArgs, pinned: Option<String>) -> (r: Result<
    String,
    ToolError,
>)
    ensures
        (match r {
            Ok(s) => Ok(s@),
            Err(e) => Err(e@),
        }) == chosen_geohash(*location, string_of(pinned)),
{
    if let Some(given) = &location.geohash {
        if !is_valid(given.as_str()) {
            return Err(
                refused(
                    "geohash must be exactly 12 chars from the geohash alphabet, got ",
                    to_quoted(given.as_str()).as_str(),
                ),
            );
        }
        return Ok(given.clone());
    }
    if let Some(lat) = &location.latitude {
        if let Some(lon) = &location.longitude {
            if !lies_within(lat.bits, 90) || !lies_within(lon.bits, 180) {
                let mut message = "latitude/longitude out of range: ".to_owned();
                message.append(lat.text.as_str());
                message.append(", ");
                message.append(lon.text.as_str());
                return Err(ToolError::InvalidParams(message));
            }
            return Ok(encode(lat.bits, lon.bits, 12));
        }
    }
    match pinned {
        Some(pinned) => Ok(pinned),
        None => Err(
            ToolError::InvalidParams(
                "no location given and none pinned: pass geohash or latitude+longitude, or set one with grindr_update_location".to_owned(),
            ),
        ),
    }
}

/// Whether the pinned location decides what a location stands for.
pub open spec fn leaves_it_to_the_pinned_one(location: LocationArgs) -> bool {
    location.geohash is None && (location.latitude is None || location.longitude is None)
}

/// Whether the pinned location has to be looked up.
pub fn needs_pinned(location: &LocationArgs) -> (r: bool)
    ensures
        r == leaves_it_to_the_pinned_one(*location),
{
    location.geohash.is_none() && (location.latitude.is_none() || location.longitude.is_none())
}

/// A geohash that is given decides, whatever else is given or pinned.
pub proof fn an_explicit_geohash_wins(location: LocationArgs, pinned: Option<Seq<char>>)
    requires
        location.geohash matches Some(given) && is_geohash(given@),
    ensures
        chosen_geohash(location, pinned) == Ok::<_, ToolErrorView>(location.geohash->Some_0@),
{
}

/// The pinned location does not matter where a geohash, or a latitude and a longitude, are
/// given.
pub proof fn the_pinned_location_is_the_last_resort(
    location: LocationArgs,
    pinned: Option<Seq<char>>,
    other: Option<Seq<char>>,
)
    requires
        !leaves_it_to_the_pinned_one(location),
    ensures
        chosen_geohash(location, pinned) == chosen_geohash(location, other),
{
}

/// A location is only ever resolved to a geohash of twelve characters.
pub proof fn a_resolved_location_is_a_geohash(location: LocationArgs, pinned: Option<Seq<char>>)
    requires
        pinned matches Some(pinned) ==> is_geohash(pinned),
    ensures
        chosen_geohash(location, pinned) matches Ok(chosen) ==> is_geohash(chosen),
{
    if let (Some(lat), Some(lon)) = (location.latitude, location.longitude) {
        encoding_is_valid(lat.bits, lon.bits);
    }
}

/// A location that was set and pinned is the one that a look at the grid uses, where no
/// other is given.
pub proof fn an_updated_location_is_browsed(
    update: LocationArgs,
    before: Option<Seq<char>>,
    browse: LocationArgs,
    chosen: Seq<char>,
)
    requires
        before matches Some(pinned) ==> is_geohash(pinned),
        chosen_geohash(update, before) == Ok::<_, ToolErrorView>(chosen),
        leaves_it_to_the_pinned_one(browse),
    ensures
        chosen_geohash(browse, pinned_location(Some(pinned_contents(chosen)))) == Ok::<
            _,
            ToolErrorView,
        >(chosen),
{
    a_resolved_location_is_a_geohash(update, before);
    pinning_is_remembered(chosen);
}

/// Where no geohash is given but a latitude and a longitude are, the location is the geohash
/// of that point, of twelve characters, exactly where the latitude is a number from -90 to 90
/// and the longitude a number from -180 to 180. Otherwise it is refused, whatever is pinned,
/// and both numbers are told.
pub proof fn coordinates_are_encoded_within_their_ranges(
    location: LocationArgs,
    pinned: Option<Seq<char>>,
)
    requires
        location.geohash is None,
        location.latitude is Some,
        location.longitude is Some,
    ensures
        ({
            let lat = location.latitude->Some_0;
            let lon = location.longitude->Some_0;
            let on_earth = !is_nan(lat.bits) && number(lat.bits) >= -90 * one() && number(lat.bits)
                <= 90 * one() && !is_nan(lon.bits) && number(lon.bits) >= -180 * one() && number(
                lon.bits,
            ) <= 180 * one();
            &&& on_earth ==> chosen_geohash(location, pinned) == Ok::<_, ToolErrorView>(
                geohash(lat.bits, lon.bits, 12),
            )
            &&& !on_earth ==> chosen_geohash(location, pinned) == Err::<Seq<char>, _>(
                ToolErrorView::InvalidParams(
                    "latitude/longitude out of range: "@ + lat.text@ + ", "@ + lon.text@,
                ),
            )
        }),
{
}

/// A geohash that is given is taken as it is where it is valid, and refused where it is not,
/// whatever else is given or pinned: nothing else takes its place.
pub proof fn a_wrong_geohash_is_refused(location: LocationArgs, pinned: Option<Seq<char>>)
    requires
        location.geohash is Some,
    ensures
        ({
            let given = location.geohash->Some_0@;
            let valid = given.len() == 12 && forall|i: int|
                0 <= i < 12 ==> "0123456789bcdefghjkmnpqrstuvwxyz"@.contains(#[trigger] given[i]);
            &&& valid ==> chosen_geohash(location, pinned) == Ok::<_, ToolErrorView>(given)
            &&& !valid ==> chosen_geohash(location, pinned) == Err::<Seq<char>, _>(
                ToolErrorView::InvalidParams(
                    "geohash must be exactly 12 chars from the geohash alphabet, got "@ + quoted(
                        given,
                    ),
                ),
            )
        }),
{
}

/// Where neither a geohash nor both a latitude and a longitude are given, the pinned location
/// is taken, and it is refused where none is pinned: one coordinate alone counts for nothing.
pub proof fn half_a_point_is_no_location(location: LocationArgs, pinned: Option<Seq<char>>)
    requires
        location.geohash is None,
        location.latitude is None || location.longitude is None,
    ensures
        pinned matches Some(p) ==> chosen_geohash(location, pinned) == Ok::<_, ToolErrorView>(p),
        pinned is None ==> chosen_geohash(location, pinned) == Err::<Seq<char>, _>(
            ToolErrorView::InvalidParams(
                "no location given and none pinned: pass geohash or latitude+longitude, or set one with grindr_update_location"@,
            ),
        ),
{
}

}
