# replay_candles

A verified library for replaying trade plans over historical candles: what the broker would have
done with each fired enter, what the positions earned, how a batch of replays compares with a
blessed baseline, and the decisions of the command-line programs around it.

- `src/` is the library. Every public function carries a contract that Verus proves. Prices
  are binary64 numbers held as bit patterns, with arithmetic that is proved to round as IEEE 754
  says.
- `tests/` runs the library on concrete candles and scores.
- `app/` is the command line: arguments, files, HTTP and JSON.

What the library believes of outside crates stands in a few marked items: hexadecimal text
(`hex`), YAML and JSON documents (`serde_yaml`, `serde_json`), printed dates (`chrono`), random
bytes (`getrandom`), and `String::push` of the standard library.
