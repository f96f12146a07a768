# model-toolcall-adapter

Tool calls for models that know none. A client offers its tools by one of three APIs
(chat completions, messages, responses); the adapter tells the model in its prompt how to
call them, reads the calls off the text that the model writes, and replies by the API that
the client speaks.

- `src/` is the library, written and proved with Verus. It holds what the adapter decides:
  reading requests (`wire`), the prompt and the calls in a text (`types`, `protocol`), the
  upstreams (`providers`), the responses that can be asked for again (`responses_store`), and
  what each route does (`http`). The modules whose names end in `_laws`, and the public
  proof functions elsewhere, state what holds of several functions together.
- `app/` is the program around it: the server, the requests to the upstreams, the files and
  the browser.
- `tests/` run the library.

What is not proved is said where it stands: the calls into `serde_json`, `sha2`, `base64`,
`uuid`, `chrono` and two functions of the standard library are behind functions and
declarations whose comments name the outside function and what is claimed of it.
