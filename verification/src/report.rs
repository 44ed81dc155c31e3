use vstd::prelude::*;
use vstd::string::StringExecFns;

use crate::error::ProgramError;
use crate::weather_data::{Forecast, ForecastPeriod, ObservationStationsGroup};

verus! {

/// The path that, appended to a station's address, gives its latest observation.
pub open spec fn latest_suffix() -> Seq<char> {
    "/observations/latest"@
}

/// The address of the latest observation of the nearest station of `stations`:
/// the first station's address followed by `/observations/latest`. A group
/// without stations is an error.
pub fn latest_observation_url(stations: &ObservationStationsGroup) -> (res: Result<
    String,
    ProgramError,
>)
    ensures
        stations.observationStations@.len() == 0 ==> (res matches Err(e) && e.message()
            == "observationStations field is empty."@),
        stations.observationStations@.len() > 0 ==> (res matches Ok(url) && url@
            == stations.observationStations@[0]@ + latest_suffix()),
        stations.observationStations@.len() > 0 ==> (res matches Ok(url) && url@
            == stations.observationStations@[0]@ + "/observations/latest"@),
{
    if stations.observationStations.len() == 0 {
        return Err(
            ProgramError::General(String::from_str("observationStations field is empty.")),
        );
    }
    let first = stations.observationStations[0].clone();
    Ok(first.concat("/observations/latest"))
}

/// How one forecast period is shown: indented, its name, a colon and its
/// detailed forecast.
pub open spec fn forecast_line(p: ForecastPeriod) -> Seq<char> {
    "    "@ + p.name@ + ": "@ + p.detailedForecast@
}

/// The number of periods shown when at most `periods` are asked for.
pub open spec fn shown_periods(forecast: Forecast, periods: usize) -> int {
    if periods < forecast.properties.periods@.len() {
        periods as int
    } else {
        forecast.properties.periods@.len() as int
    }
}

/// The lines that show the first `periods` periods of `forecast`, in order,
/// one line per period.
pub fn forecast_lines(forecast: &Forecast, periods: usize) -> (lines: Vec<String>)
    ensures
        lines@.len() == shown_periods(*forecast, periods),
        lines@.len() == (if periods < forecast.properties.periods@.len() {
            periods as int
        } else {
            forecast.properties.periods@.len() as int
        }),
        forall|i: int|
            0 <= i < lines@.len() ==> #[trigger] lines@[i]@ == forecast_line(
                forecast.properties.periods@[i],
            ),
        forall|i: int|
            0 <= i < lines@.len() ==> #[trigger] lines@[i]@ == "    "@
                + forecast.properties.periods@[i].name@ + ": "@
                + forecast.properties.periods@[i].detailedForecast@,
{
    let all = &forecast.properties.periods;
    let mut lines: Vec<String> = Vec::new();
    let mut i: usize = 0;
    while i < all.len() && i < periods
        invariant
            all@ == forecast.properties.periods@,
            i <= all@.len(),
            i <= periods,
            lines@.len() == i,
            forall|k: int| 0 <= k < i ==> #[trigger] lines@[k]@ == forecast_line(all@[k]),
            forall|k: int|
                0 <= k < i ==> #[trigger] lines@[k]@ == "    "@ + all@[k].name@ + ": "@
                    + all@[k].detailedForecast@,
        decreases all@.len() - i,
    {
        let p = &all[i];
        let line = String::from_str("    ").concat(p.name.as_str()).concat(": ").concat(
            p.detailedForecast.as_str(),
        );
        lines.push(line);
        i += 1;
    }
    lines
}

/// Law: a period's line is the indentation, the period's name, a colon and a
/// space, and then the whole detailed forecast, unabridged.
pub proof fn law_forecast_line_shows_whole_forecast(p: ForecastPeriod)
    ensures
        forecast_line(p) == "    "@ + p.name@ + ": "@ + p.detailedForecast@,
        p.detailedForecast@.is_suffix_of(forecast_line(p)),
        forecast_line(p).len() == 6 + p.name@.len() + p.detailedForecast@.len(),
{
    reveal_strlit("    ");
    reveal_strlit(": ");
    let f = forecast_line(p);
    let d = p.detailedForecast@;
    assert(f.subrange(f.len() - d.len(), f.len() as int) =~= d);
}

/// Law: at most `periods` lines are shown, and every period is shown when
/// there are no more than `periods` of them.
pub proof fn law_shown_periods(forecast: Forecast, periods: usize)
    ensures
        shown_periods(forecast, periods) <= periods,
        shown_periods(forecast, periods) <= forecast.properties.periods@.len(),
        forecast.properties.periods@.len() <= periods ==> shown_periods(forecast, periods)
            == forecast.properties.periods@.len(),
        periods <= forecast.properties.periods@.len() ==> shown_periods(forecast, periods)
            == periods,
{
}

} // verus!
