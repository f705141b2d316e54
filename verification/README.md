# uncap

Solve image and audio captchas locally, and find captchas on web pages.

The library (`src/`) holds the decisions, each with a contract proved by Verus:

- `solver::gray` — grayscale images and OCR preprocessing (scale 2×, binary
  threshold at the mean, auto-invert);
- `solver::math` — evaluation of math expressions such as "3 + 7 = ?";
- `solver::slide` — column gradient energy and notch location;
- `solver::audio` — audio format detection and transcript cleanup;
- `solver::text`, `solver` — the per-kind solve steps and their completion;
- `crawler` — captcha detection on a page, same-host link extraction, and the
  state of a bounded crawl;
- `strings` — character-level text operations (trim, split, integer parsing and
  formatting, substring search).

Calls into `image`, `regex`, `scraper` and `url` go through small trusted
wrappers (`solver::gray`, `regex_search`, `html`, `weburl`) whose contracts name
their results.

`app/` is the command-line program: arguments, files, HTTP, and the external
`tesseract`, `whisper` and `pocketsphinx` tools.

```sh
uncap captcha.png            # solve an image captcha as text
curl -s https://example.com/captcha.png | uncap -
uncap --psm 8 captcha.png    # another Tesseract page segmentation mode
uncap slide puzzle.png       # X offset of a slide captcha's notch
uncap crawl https://example.com --max-pages 20 --output caps
```
