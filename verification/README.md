# Art Window

A daily painting on the desktop, fit to the screen with black borders: a
public-domain painting from the Metropolitan Museum of Art, or a picture from a
folder of your own, once a local calendar day.

## Layout

- `src/` is the library, written in Verus and verified. It holds the decisions:
  which picture to fetch and what to pass over, what a download is called, when a
  picture is owed, what the event loop does next, which favourites' files may be
  deleted, what the wallpaper settings and login items say, and how the command
  line reads. Each public function states its result in its contract, and the
  laws the program keeps stand as public proof functions.
- `app/` is the program around it: the requests to the museum, the files, the
  desktop's wallpaper and login settings, the menu bar and its event loop. It
  does what the library decides.
- `tests/` runs the library on concrete values.

Verify with `verus`; build and test with Cargo.
