# sensor_bridge

Firmware logic for an STM32 board that bridges a serial command port to an
SDI-12 soil-sensor bus and two MAX31856 thermocouple converters.

- `src/` is the verified library (Verus):
  - `command`: the serial command language and its parser;
  - `text`: Unicode whitespace, trimming, searching and comparing text;
  - `response`: answering a command, step by step (fixed replies, SDI-12
    queries and scans, converter readings, the final reply line);
  - `frame`: SDI-12 character frames on the bit-banged bus (even parity,
    frame checks, bit timing);
  - `receiver`: collecting an SDI-12 response up to its line feed;
  - `thermocouple`: converter SPI frames, temperature decoding and the
    reading's text;
  - `buffer`: a bounded writer into the reply buffer;
  - `probe`: the commands of the read-only bus probe;
  - `error`: error kinds, their names and reply lines.
- `app/` is the firmware around it (embassy on the STM32G031): the UART,
  GPIO, SPI and clock work, the command loop and the bench diagnostics.
- `tests/` runs the library on concrete inputs.
