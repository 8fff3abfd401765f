# ds4

Inference engine for one fixed transformer architecture, with its logic in a verified library and its
float arithmetic around it.

* `src/` is the library, written in Verus. Floats appear in it as bit patterns.
  * `gguf`, `gguf_writer`, `tensor_types`, `bytes`, `text`: model files, read and written;
    `gguf_laws` proves that reading gives back what was written.
  * `tokenizer`, `bpe`: byte-level pair encoding, pieces of text, vocabularies.
  * `half`, `quant`, `quant_tables`: half-precision and eight-bit floats, quantized blocks and their
    integer dot products.
  * `rank`, `routing`: choices by float values, and the routing of tokens to experts.
  * `compressor`, `forward`: the sliding windows and caches of the forward pass.
  * `session`, `chat`, `cli`, `dialogue`: what is fed to the model, and when generation stops;
    `session_laws` states what sessions come to for any forward pass.
  * `model`, `sample_model`, `sample_file`: binding of weights, and small models for trials;
    `sample_laws` proves that a sample file can be bound.
* `tests/` runs the library.
* `app/` is the program: files, the command line, and the arithmetic on floats.

Public proof functions named `law_..` state what holds of the library as a whole.
