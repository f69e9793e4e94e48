# nu_ansi_term

Styled text for ANSI terminals, with its contracts proved.

- `src/style.rs`: `Style`, `Color`, `OSControl` and their builders.
- `src/ansi.rs`: the escape codes written before and after styled text
  (`Style::prefix`, `Style::suffix`), specified as character sequences.
- `src/difference.rs`: `Difference::between`, the fewest codes that take
  the terminal from one style to the next.
- `src/display.rs`: `AnsiGenericString`, `AnsiGenericStrings` and what
  writing them produces, with the laws about it.
- `src/write.rs`: `AnyWrite`, implemented for `String` and `Vec<u8>`.
- `src/windows.rs`: the console-mode update that turns on escape-code
  processing on Windows.
- `app/lib.rs`: `Display` wrappers, writing to an `io::Write`, and the
  Windows console call.
