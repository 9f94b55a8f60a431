# asterveil

A terminal console for NVIDIA GPUs: it lists each GPU's temperature, load,
clocks, fans, VRAM and power draw, and sets power limits and fan speeds on
the focused GPU or on a selection of GPUs.

## Layout

- `src/` is the library, verified with Verus:
  - `text.rs`: character-sequence helpers (trimming, splitting into lines
    and fields, searching, unsigned and decimal number text);
  - `decimal.rs` and `number.rs`: decimal numbers read from driver output
    and power values, compared, clamped, halved and shown as whole watts;
  - `gpu.rs`: inventory rows, fan listings, power presets and the
    `nvidia-smi` / `nvidia-settings` command lines;
  - `app.rs`: the console state and what every key does to it;
  - `plan.rs`: the GPU work behind the power, fan and default actions;
  - `layout.rs`: which cards are shown, their titles, and popup placement;
  - `laws.rs`: properties that hold across operations.
- `app/` is the terminal program: it draws with ratatui, reads keys with
  crossterm, runs the driver tools and carries out the planned work. It
  also does the floating-point work: VRAM summaries, gauge ratios, and
  power values that are not whole numbers, which the library hands over
  as `NeedsFloat`.

The readings are queried again every 500 ms, menus and prompts open or not.
- `tests/` exercises the library on concrete values.

## Keys

| Key | Action |
|-----|--------|
| `j` / `↓` | Move the focus down |
| `k` / `↑` | Move the focus up |
| `p` / Enter | Power limit menu |
| `f` | Fan speed menu |
| `d` | Default power limits and automatic fans |
| Space | Toggle the focused GPU in the selection |
| `a` / `c` | Select all / clear the selection |
| `r` | Query the GPUs again |
| `q` / Esc | Quit (Esc closes an open menu first) |
