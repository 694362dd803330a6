# stir4200

Downloads dives from Uwatec Galileo dive computers through a SigmaTel STIr4200
infrared/USB dongle, and writes them as a Subsurface divelog.

`src/` is a library in Verus. It does no I/O: its functions take the bytes that
were read and return the bytes to send or the text to print, and what they return
is stated in their contracts and proved.

- `sir`: asynchronous SIR framing and its frame check sequence.
- `chip`: the dongle's registers, the baud-rate change and its read-back, and the
  header of transmitted frames.
- `irlap`: discovery commands and responses.
- `smart`: the TinyTP session with its credits, and the download dialogue.
- `subsurface`: dive records, their sample streams, dives, dates and the divelog.
- `usb`: descriptors, how they are shown, and the endpoints that are expected.
- `cli`, `logging`, `text`, `bytes`: the command line, messages, texts of numbers
  and little-endian numbers.

Proof functions that are public state laws of the library as a whole, such as that
a wrapped payload is received unchanged, that one changed byte is always noticed,
or that the bytes of a transfer arrive in order.

`app/` is the program around the library: the USB bus, files and the terminal.
`tests/` runs the compiled library.

Three calls are trusted rather than proved, each with a contract of its own:
`String::push`, `String::from_utf8_lossy` and `rusb::request_type`.
