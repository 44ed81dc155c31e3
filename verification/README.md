# weather-rs

A command-line client for the National Weather Service API: it finds a zip
code's coordinates, then shows the current conditions at the nearest
observation station and the coming forecast periods.

- `src/` is the library, verified with Verus: the zip code table lookup
  (`zip_lookup`, over `split_fields`), the compass point of a wind heading
  (`compass_direction`), the address of a station's latest observation
  (`latest_observation_url`), the forecast lines (`forecast_lines`) and the
  reading of the command line (`read_invocation`, `check_single`,
  `parse_count`).
- `app/` is the program: HTTP requests, JSON decoding, the floating-point
  unit conversions and printing.

Usage:

```
weather-rs -z 89145 -p 3
```

The zip code can also be set with `WEATHER_RS_ZIP`; `-z` takes precedence.
The zip code table (`zip,city,state,latitude,longitude` per line) is read from
the file named by `WEATHER_RS_ZIP_DATA`, or `zip_data.txt`.
