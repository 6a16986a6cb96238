# katsu

The parts of a JavaScript runtime that can be stated and proved: a heap with compressed pointers, the
bytecode a function is made of, and the builtins a program calls.

```
src/gc        the cage, the allocator and its census, strings, atoms, shapes, objects,
              indexed properties, records, closures and contexts
src/ir        instructions, constants, source positions, function blueprints and their verifier
src/builtins  the realm, conversion to text, Object, Function, Error, String, JSON, console,
              performance and the value globals
src/api.rs    the embedding API
src/text.rs   numbers and padding as text
app           address space, the clock, the sinks, the embedding runtime, errors with Display
tests         programs and values
```

Every function under `src` is verified by Verus against the contract in its header. Public proof
functions whose names begin with `law_` state what holds across functions. Outside calls stand behind
a few small wrappers, each with a comment that says what is taken on trust.

Numbers are held as the bit pattern of a double and the text it converts to, because the arithmetic
on them is not part of the library.
