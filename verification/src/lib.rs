//! Weather forecast lookup: the logic behind a command-line client of the
//! National Weather Service API, with its contracts proved by Verus.

mod args;
mod compass;
mod error;
mod report;
mod text;
mod weather_data;
mod zip;

pub use args::{
    check_single, has_argument, parse_count, read_invocation, Invocation, Settings,
};
pub use compass::compass_direction;
pub use error::ProgramError;
pub use report::{forecast_lines, latest_observation_url};
pub use text::{chars_of, split_fields};
pub use weather_data::{
    Forecast, ForecastPeriod, ForecastProperties, ObservationStationsGroup, Points,
    PointsProperties,
};
pub use zip::zip_lookup;
