# bot_rs

The core of a Telegram bot that searches and downloads music from several
platforms, looks up phone ROM updates, and keeps chat statistics, written in
Verus: each function states what it returns in `requires` / `ensures` and
Verus proves it.

## Layout

- `src/` — the verified library, one module per subject:
  - music: `provider`, `settings`, `command`, `callback`, `callback_flow`,
    `menus`, `music_text`, and one module per platform (`netease`,
    `tencent`, `kugou`, `apple`, `soda`, `soda_key`, `bilibili`);
  - media bytes: `mp4` (boxes and track runs), `fragments` (the walk over
    `moof`/`traf` boxes, decrypting or collecting each run), `cenc`
    (AES-CTR sample decryption and wrapper jobs), `progressive` (fragmented
    to progressive MP4), `alac` (ALAC packet scan and repair), `hls`
    (playlists), `zip` (archive directory);
  - ROM updates: `rom_core`, `rom_links`, `rom_map`, `rom_query`,
    `rom_session` (the request/refresh state machine), `rom_security`,
    `rom_crypto`;
  - statistics, group switches and small pieces: `freq`, `switches`,
    `basics`;
  - shared text and number helpers: `text`, `num`, `urlcodec`, `urlparts`,
    `error`.
- `tests/` — tests of the library on concrete values.
- `app/` — ordinary Rust around the library: the ROM query driven through an
  update-server connection, a decrypted fragmented MP4 made progressive,
  and the figures that need floating point.

Calls into outside crates (AES, SHA-1, base64, OpenCC, jieba, `url`,
`urlencoding`, `serde_json`, `oxideav-mp4`) go through small wrappers marked
`#[verifier::external_body]`, whose doc comments say what their contracts
claim of the outside code.
