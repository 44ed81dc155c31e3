use vstd::prelude::*;

verus! {

/// A gridpoint forecast, as the forecast endpoint describes it.
pub struct Forecast {
    pub properties: ForecastProperties,
}

/// The body of a forecast: when it was made and its periods, in order.
#[allow(non_snake_case)]
pub struct ForecastProperties {
    pub forecastGenerator: String,
    pub generatedAt: String,
    pub updateTime: String,
    pub validTimes: String,
    pub periods: Vec<ForecastPeriod>,
}

/// One period of a forecast, such as "Tonight".
#[allow(non_snake_case)]
pub struct ForecastPeriod {
    pub number: u8,
    pub name: String,
    pub startTime: String,
    pub endTime: String,
    pub isDaytime: bool,
    pub temperature: u8,
    pub temperatureTrend: Option<String>,
    pub windSpeed: String,
    pub windDirection: String,
    pub shortForecast: String,
    pub detailedForecast: String,
}

/// The metadata of a point: where its forecast and its observation stations are found.
pub struct Points {
    pub properties: PointsProperties,
}

/// The endpoints that serve a point.
#[allow(non_snake_case)]
pub struct PointsProperties {
    pub forecast: String,
    pub observationStations: String,
}

/// The observation stations near a point, nearest first.
#[allow(non_snake_case)]
pub struct ObservationStationsGroup {
    pub observationStations: Vec<String>,
}

} // verus!
