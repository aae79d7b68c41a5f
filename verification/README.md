# Springchick

The decision logic of a Wayland shell for phones, written in Rust and proved with
Verus.

- `src/` is the library. It decides: what a touch means, what a frame consists of
  and in which order, when the panel goes dark, which app a window belongs to,
  what a desktop entry launches. Each function states what it does in its
  contract. What several functions keep together stands as a proof function whose
  name starts with `law_`.
- `tests/` runs the library on given values.
- `app/` is the program around it: the environment, files, sockets, processes and
  threads, and arithmetic on floating-point numbers.

Surfaces, windows and apps are numbers in the library, and a moment is a number
of nanoseconds. A function that would touch the world returns the steps to take
instead, in order.
